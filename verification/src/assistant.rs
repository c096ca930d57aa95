//! Walking a directory tree: what is done with each file.

use crate::archive::{bears_manifest, is_archive, is_archive_suffix, is_zip,
    law_repack_output_is_zip, law_suffix_makes_an_archive, law_zip_by_extension,
    law_zip_is_repacked_in_place, lemma_archive_name_end, name_or_empty, names_archive, names_zip,
    repack_output_name, stem_of_archive, zip_name_of, zip_path_of};
use crate::config::{law_first_match_wins, Config, ConfigView};
use crate::dispatch::ProcessResult;
use crate::member::{NestedMode, Scope};
use crate::mtime::MTIME_BUMP;
use crate::path::name_of;
use crate::pattern::glob_matches;
use crate::pdf::{is_pdf_name, names_pdf};
use crate::repack::{law_output_bears_manifest, start, stored_names, Member};
use crate::state::{knows, law_recorded_until_changed, stored_time, StateRow};
use crate::text::{ends_with, lower, same_text};
use vstd::prelude::*;
use vstd::string::*;

verus! {

/// How many workers process the tree: as many as asked for, or half the processors, but at least
/// one.
pub fn worker_count(jobs: Option<usize>, cpus: usize) -> (res: usize)
    ensures
        res == match jobs {
            Some(n) => n,
            None => if cpus < 2 {
                1
            } else {
                cpus / 2
            },
        },
        jobs is None ==> res >= 1 && (cpus >= 2 ==> 2 * res <= cpus < 2 * res + 2),
{
    match jobs {
        Some(n) => n,
        None => if cpus < 2 {
            1
        } else {
            cpus / 2
        },
    }
}

/// What to do with a file of the tree.
#[derive(Debug, Clone, Copy, PartialEq, Eq, Structural)]
pub enum PathAction {
    /// Leave it.
    Skip,
    /// Repack it.
    Archive,
    /// Apply the rules to it.
    File,
}

/// What is done with a file of the tree.
pub open spec fn path_plan(path: Seq<char>, current: bool, files_only: bool, archives_only: bool) -> PathAction {
    let archive = names_archive(name_or_empty(path));
    if current {
        PathAction::Skip
    } else if archive && !files_only {
        PathAction::Archive
    } else if !archive && !archives_only {
        PathAction::File
    } else {
        PathAction::Skip
    }
}

/// What to do with a file of the tree; `current` says that it has been processed and has not
/// changed since.
pub fn plan_path(path: &str, current: bool, files_only: bool, archives_only: bool) -> (res: PathAction)
    ensures
        res == path_plan(path@, current, files_only, archives_only),
{
    if current {
        return PathAction::Skip;
    }
    if is_archive(path) {
        if files_only {
            return PathAction::Skip;
        }
        return PathAction::Archive;
    }
    if !archives_only {
        return PathAction::File;
    }
    PathAction::Skip
}

/// What to do with an archive of the tree.
#[derive(Debug, Clone, Copy, PartialEq, Eq, Structural)]
pub enum ArchiveAction {
    /// It has been repacked already.
    AlreadyProcessed,
    /// It would be repacked.
    DryRun,
    /// Repack it and hand the outcome to [`settle_archive`].
    Repack,
}

/// What is done with an archive of the tree.
pub open spec fn archive_plan(path: Seq<char>, has_manifest: bool, dry_run: bool) -> ArchiveAction {
    if names_zip(path) && has_manifest {
        ArchiveAction::AlreadyProcessed
    } else if dry_run {
        ArchiveAction::DryRun
    } else {
        ArchiveAction::Repack
    }
}

/// What to do with an archive of the tree; `has_manifest` says that it is a ZIP that can be read
/// and bears the manifest.
pub fn plan_archive(path: &str, has_manifest: bool, dry_run: bool) -> (res: ArchiveAction)
    ensures
        res == archive_plan(path@, has_manifest, dry_run),
{
    if is_zip(path) && has_manifest {
        ArchiveAction::AlreadyProcessed
    } else if dry_run {
        ArchiveAction::DryRun
    } else {
        ArchiveAction::Repack
    }
}

/// The archive of that file name leaves a ZIP of another name.
pub open spec fn is_replaced(name: Seq<char>) -> bool {
    zip_name_of(name) != name
}

/// Whether an archive of that file name is removed once it is repacked: it is, unless the ZIP has
/// taken its place.
pub fn removes_original(name: &str) -> (res: bool)
    ensures
        res == is_replaced(name@),
{
    !same_text(repack_output_name(name).as_str(), name)
}

/// How the command that repacks an archive ended.
#[derive(Debug, Clone, Copy, PartialEq, Eq, Structural)]
pub enum RepackRun {
    /// It could not be started.
    NotStarted,
    /// It did not exit successfully.
    Failed,
    Succeeded,
}

/// Why an archive was not repacked.
#[derive(Debug, Clone, Copy, PartialEq, Eq, Structural)]
pub enum ArchiveError {
    /// The command could not be started.
    NotStarted,
    /// The command did not exit successfully.
    RepackFailed,
}

/// What follows once an archive is repacked.
#[derive(Debug, Clone, Copy, PartialEq, Eq, Structural)]
pub struct ArchiveEnd {
    /// The archive is removed.
    pub remove_original: bool,
    /// The modification time of the ZIP is set to that of the archive, moved.
    pub move_mtime: bool,
    pub remember: Remember,
}

/// What follows an attempt to repack the archive of that file name. After an error nothing does:
/// the archive, its modification time and the record of it stay as they are.
pub open spec fn archive_end(run: RepackRun, name: Seq<char>) -> Result<ArchiveEnd, ArchiveError> {
    match run {
        RepackRun::NotStarted => Err(ArchiveError::NotStarted),
        RepackRun::Failed => Err(ArchiveError::RepackFailed),
        RepackRun::Succeeded => Ok(
            ArchiveEnd {
                remove_original: is_replaced(name),
                move_mtime: true,
                remember: Remember::AsLeft,
            },
        ),
    }
}

/// What to do after an attempt to repack the archive of that file name. After an error, do
/// nothing.
pub fn settle_archive(run: RepackRun, name: &str) -> (res: Result<ArchiveEnd, ArchiveError>)
    ensures
        res == archive_end(run, name@),
{
    match run {
        RepackRun::NotStarted => Err(ArchiveError::NotStarted),
        RepackRun::Failed => Err(ArchiveError::RepackFailed),
        RepackRun::Succeeded => Ok(
            ArchiveEnd {
                remove_original: removes_original(name),
                move_mtime: true,
                remember: Remember::AsLeft,
            },
        ),
    }
}

/// A reason to leave a PDF alone.
#[derive(Debug, Clone, Copy, PartialEq, Eq, Structural)]
pub enum PdfCheck {
    /// It is encrypted.
    Encrypted,
    /// It has text.
    HasText,
    /// It has been through the OCR tool.
    Stamped,
}

/// What to do with a file of the tree that is not an archive.
#[derive(Debug, Clone, Copy, PartialEq, Eq, Structural)]
pub enum FileAction {
    /// No rule is for it.
    Ignore,
    /// Look into that and hand the answer to [`answer_check`].
    Check { rule: usize, check: PdfCheck },
    /// Leave it alone for that reason.
    Skip { check: PdfCheck },
    /// The rule at that position would be applied.
    DryRun { rule: usize },
    /// Apply the rule at that position and hand the result to [`settle_file`].
    Apply { rule: usize },
}

/// What is recorded of a file.
#[derive(Debug, Clone, Copy, PartialEq, Eq, Structural)]
pub enum Remember {
    /// Nothing.
    Nothing,
    /// That it has been processed, with the modification time that it had.
    AsFound,
    /// That it, or the ZIP made from it, has been processed, with its new modification time.
    AsLeft,
}

/// A file with a rule that nothing speaks against.
pub open spec fn rule_due(rule: usize, dry_run: bool) -> FileAction {
    if dry_run {
        FileAction::DryRun { rule }
    } else {
        FileAction::Apply { rule }
    }
}

/// What is done with a file first: a PDF has to pass three checks, another file does not.
pub open spec fn first_action(rule: Option<int>, filename: Seq<char>, dry_run: bool) -> FileAction {
    match rule {
        None => FileAction::Ignore,
        Some(rule) => if names_pdf(filename) {
            FileAction::Check { rule: rule as usize, check: PdfCheck::Encrypted }
        } else {
            rule_due(rule as usize, dry_run)
        },
    }
}

/// Where the answer to a check leads.
pub open spec fn next_action(rule: usize, check: PdfCheck, hit: bool, dry_run: bool) -> FileAction {
    if hit {
        FileAction::Skip { check }
    } else {
        match check {
            PdfCheck::Encrypted => FileAction::Check { rule, check: PdfCheck::HasText },
            PdfCheck::HasText => FileAction::Check { rule, check: PdfCheck::Stamped },
            PdfCheck::Stamped => rule_due(rule, dry_run),
        }
    }
}

/// The rule at that position is the first whose pattern matches the file name.
pub open spec fn is_first_match(config: ConfigView, rule: int, filename: Seq<char>) -> bool {
    &&& 0 <= rule < config.processor.len()
    &&& glob_matches(config.processor[rule].pattern, filename)
    &&& forall|j: int|
        0 <= j < rule ==> !glob_matches(#[trigger] config.processor[j].pattern, filename)
}

/// What to do with a file of the tree that is not an archive.
pub fn plan_file(config: &Config, filename: &str, dry_run: bool) -> (res: FileAction)
    ensures
        res == first_action(config@.rule_for(filename@), filename@, dry_run),
        res is Ignore <==> forall|j: int|
            0 <= j < config@.processor.len() ==> !glob_matches(
                #[trigger] config@.processor[j].pattern,
                filename@,
            ),
        res matches FileAction::Check { rule, check } ==> names_pdf(filename@) && is_first_match(
            config@,
            rule as int,
            filename@,
        ),
        res matches FileAction::DryRun { rule } ==> is_first_match(config@, rule as int, filename@),
        res matches FileAction::Apply { rule } ==> is_first_match(config@, rule as int, filename@),
{
    proof {
        law_first_match_wins(config@, filename@);
    }
    match config.find_rule_index(filename) {
        None => FileAction::Ignore,
        Some(rule) => if is_pdf_name(filename) {
            FileAction::Check { rule, check: PdfCheck::Encrypted }
        } else if dry_run {
            FileAction::DryRun { rule }
        } else {
            FileAction::Apply { rule }
        },
    }
}

/// What to do after a check of a file whose rule is the one at that position.
pub fn answer_check(rule: usize, check: PdfCheck, hit: bool, dry_run: bool) -> (res: FileAction)
    ensures
        res == next_action(rule, check, hit, dry_run),
{
    if hit {
        return FileAction::Skip { check };
    }
    match check {
        PdfCheck::Encrypted => FileAction::Check { rule, check: PdfCheck::HasText },
        PdfCheck::HasText => FileAction::Check { rule, check: PdfCheck::Stamped },
        PdfCheck::Stamped => if dry_run {
            FileAction::DryRun { rule }
        } else {
            FileAction::Apply { rule }
        },
    }
}

/// What a file that a rule was applied to ends with.
#[derive(Debug)]
pub struct FileEnd {
    /// What to write back, if the file changed; its modification time is then moved.
    pub data: Option<Vec<u8>>,
    pub remember: Remember,
}

/// What to do once the rule for a file has been applied.
pub fn settle_file(result: ProcessResult) -> (res: FileEnd)
    ensures
        match result {
            ProcessResult::Modified(d) => res.data == Some(d) && res.remember == Remember::AsLeft,
            ProcessResult::Unchanged => res.data is None && res.remember == Remember::AsFound,
        },
{
    match result {
        ProcessResult::Modified(d) => FileEnd { data: Some(d), remember: Remember::AsLeft },
        ProcessResult::Unchanged => FileEnd { data: None, remember: Remember::AsFound },
    }
}

impl FileAction {
    /// What is recorded of a file that ends with this action, without its rule being applied: one
    /// that is left alone is not looked at again.
    pub open spec fn remembered(self) -> Remember {
        if self is Skip {
            Remember::AsFound
        } else {
            Remember::Nothing
        }
    }

    /// What to record of a file that ends with this action, without its rule being applied.
    pub fn remember(&self) -> (res: Remember)
        ensures
            res == self.remembered(),
    {
        match self {
            FileAction::Skip { .. } => Remember::AsFound,
            _ => Remember::Nothing,
        }
    }
}

impl ArchiveAction {
    /// What is recorded of an archive that ends with this action, without being repacked: one that
    /// has been repacked already is not looked into again.
    pub open spec fn remembered(self) -> Remember {
        if self is AlreadyProcessed {
            Remember::AsFound
        } else {
            Remember::Nothing
        }
    }

    /// What to record of an archive that ends with this action, without being repacked.
    pub fn remember(&self) -> (res: Remember)
        ensures
            res == self.remembered(),
    {
        match self {
            ArchiveAction::AlreadyProcessed => Remember::AsFound,
            _ => Remember::Nothing,
        }
    }
}

/// The action after `n` answers; once no check is due, it stays.
pub open spec fn action_after(
    action: FileAction,
    answers: spec_fn(PdfCheck) -> bool,
    dry_run: bool,
    n: nat,
) -> FileAction
    decreases n,
{
    if n == 0 {
        action
    } else {
        match action_after(action, answers, dry_run, (n - 1) as nat) {
            FileAction::Check { rule, check } => next_action(rule, check, answers(check), dry_run),
            done => done,
        }
    }
}

/// Three answers settle a file. A PDF is left alone if any of the checks hits, for the first
/// reason that holds; to all other files that have a rule, the rule is applied.
pub proof fn law_checks_settle(
    rule: Option<int>,
    filename: Seq<char>,
    answers: spec_fn(PdfCheck) -> bool,
    dry_run: bool,
)
    ensures
        action_after(first_action(rule, filename, dry_run), answers, dry_run, 3) == match rule {
            None => FileAction::Ignore,
            Some(rule) => if names_pdf(filename) && answers(PdfCheck::Encrypted) {
                FileAction::Skip { check: PdfCheck::Encrypted }
            } else if names_pdf(filename) && answers(PdfCheck::HasText) {
                FileAction::Skip { check: PdfCheck::HasText }
            } else if names_pdf(filename) && answers(PdfCheck::Stamped) {
                FileAction::Skip { check: PdfCheck::Stamped }
            } else if dry_run {
                FileAction::DryRun { rule: rule as usize }
            } else {
                FileAction::Apply { rule: rule as usize }
            },
        },
{
    reveal_with_fuel(action_after, 4);
}

/// A dry run applies no rule.
pub proof fn law_dry_run_applies_nothing(
    rule: Option<int>,
    filename: Seq<char>,
    answers: spec_fn(PdfCheck) -> bool,
    n: nat,
)
    ensures
        !(action_after(first_action(rule, filename, true), answers, true, n) is Apply),
    decreases n,
{
    if n > 0 {
        law_dry_run_applies_nothing(rule, filename, answers, (n - 1) as nat);
    }
}

/// The modification time of a file after it was processed.
pub open spec fn mtime_after(mtime: u64, remember: Remember) -> int {
    if remember == Remember::AsLeft {
        mtime + MTIME_BUMP
    } else {
        mtime as int
    }
}

/// A file that was processed, or checked and left alone, is not looked at again as long as it
/// stays as it was left: where anything is recorded of it, the record says so.
pub proof fn law_second_pass_skips(
    table: Map<Seq<char>, StateRow>,
    path: Seq<char>,
    row: StateRow,
    mtime: u64,
    remember: Remember,
    files_only: bool,
    archives_only: bool,
)
    requires
        remember != Remember::Nothing,
        mtime_after(mtime, remember) <= u64::MAX,
        row.mtime == stored_time(mtime_after(mtime, remember) as u64),
    ensures
        ({
            let now = mtime_after(mtime, remember) as u64;
            let current = knows(table.insert(path, row), path, now);
            path_plan(path, current, files_only, archives_only) == PathAction::Skip
        }),
{
    law_recorded_until_changed(table, path, row, mtime_after(mtime, remember) as u64);
}

/// An archive that is not a ZIP is repacked whenever it is found, whatever it holds.
pub proof fn law_other_archives_are_always_repacked(path: Seq<char>, has_manifest: bool)
    requires
        names_archive(name_or_empty(path)),
        !names_zip(path),
    ensures
        path_plan(path, false, false, false) == PathAction::Archive,
        path_plan(path, false, false, true) == PathAction::Archive,
        archive_plan(path, has_manifest, false) == ArchiveAction::Repack,
{
}

/// A ZIP is repacked exactly if it bears no manifest.
pub proof fn law_zip_is_repacked_once(path: Seq<char>, has_manifest: bool)
    requires
        names_zip(path),
    ensures
        archive_plan(path, has_manifest, false) == ArchiveAction::Repack <==> !has_manifest,
{
}

/// An attempt that does not succeed changes nothing: it is an error, upon which the archive is not
/// removed, no modification time is moved and nothing is recorded.
pub proof fn law_failed_repack_changes_nothing(run: RepackRun, name: Seq<char>)
    ensures
        archive_end(run, name) is Err <==> run != RepackRun::Succeeded,
        run == RepackRun::NotStarted ==> archive_end(run, name) == Err::<ArchiveEnd, ArchiveError>(
            ArchiveError::NotStarted,
        ),
        run == RepackRun::Failed ==> archive_end(run, name) == Err::<ArchiveEnd, ArchiveError>(
            ArchiveError::RepackFailed,
        ),
        archive_end(run, name) matches Ok(end) ==> (end.remove_original <==> is_replaced(name))
            && end.move_mtime && end.remember == Remember::AsLeft,
{
}

/// A dry run repacks nothing, and says so of exactly the archives that a run would repack; it
/// records nothing of them.
pub proof fn law_dry_run_repacks_nothing(path: Seq<char>, has_manifest: bool)
    ensures
        archive_plan(path, has_manifest, true) == ArchiveAction::DryRun ==> archive_plan(
            path,
            has_manifest,
            true,
        ).remembered() == Remember::Nothing,
        archive_plan(path, has_manifest, true) != ArchiveAction::Repack,
        archive_plan(path, has_manifest, true) == ArchiveAction::DryRun <==> archive_plan(
            path,
            has_manifest,
            false,
        ) == ArchiveAction::Repack,
{
}

/// An archive whose name does not end with `.zip` is removed once the ZIP stands beside it; a ZIP
/// is not, for it is the ZIP that was written.
pub proof fn law_only_converted_archives_are_removed(name: Seq<char>)
    ensures
        !ends_with(name, ".zip"@) ==> is_replaced(name),
        ends_with(name, ".zip"@) && name.len() > ".zip"@.len() && !name.contains('/')
            ==> !is_replaced(name),
{
    let k = ".zip"@.len() as int;
    if !is_replaced(name) {
        assert(zip_name_of(name).skip(name.len() - k) =~= ".zip"@);
    }
    if ends_with(name, ".zip"@) && name.len() > k && !name.contains('/') {
        let stem = name.take(name.len() - k);
        assert(stem + ".zip"@ =~= name);
        assert(!stem.contains('/')) by {
            assert forall|i: int| 0 <= i < stem.len() implies stem[i] != '/' by {
                assert(stem[i] == name[i]);
            }
        }
        law_zip_is_repacked_in_place(stem);
    }
}

/// Every file of the tree falls to at most one of the two restricted runs, and to exactly one of
/// them if it has not been processed.
pub proof fn law_restrictions_divide(path: Seq<char>, current: bool)
    ensures
        path_plan(path, current, true, false) == PathAction::Skip || path_plan(
            path,
            current,
            false,
            true,
        ) == PathAction::Skip,
        !current ==> (path_plan(path, current, true, false) == PathAction::Skip <==> path_plan(
            path,
            current,
            false,
            true,
        ) != PathAction::Skip),
        path_plan(path, current, true, true) == PathAction::Skip,
{
}

/// A file that was recorded is left alone as long as its modification time stays the same; once it
/// changes, the record counts for nothing.
pub proof fn law_recorded_file_is_left_alone(
    table: Map<Seq<char>, StateRow>,
    path: Seq<char>,
    row: StateRow,
    recorded: u64,
    mtime: u64,
    files_only: bool,
    archives_only: bool,
)
    requires
        row.mtime == stored_time(recorded),
    ensures
        ({
            let current = knows(table.insert(path, row), path, mtime);
            path_plan(path, current, files_only, archives_only) == if mtime == recorded {
                PathAction::Skip
            } else {
                path_plan(path, false, files_only, archives_only)
            }
        }),
{
    law_recorded_until_changed(table, path, row, recorded);
}

/// Processing a tree again does nothing to what it has repacked: however nested archives are
/// treated, an archive leaves a ZIP that bears the manifest, and such a ZIP is left alone.
pub proof fn law_repacked_is_left_alone(
    path: Seq<char>,
    nested: NestedMode,
    config: ConfigView,
    ms: Seq<Member>,
    time: Seq<char>,
    dry_run: bool,
)
    requires
        name_of(path) is Some,
        stem_of_archive(name_of(path)->0).len() > 0,
    ensures
        ({
            let out = start().members(Scope::Top(nested), config, ms).output(true, time);
            let has_manifest = bears_manifest(Some(stored_names(out)));
            &&& has_manifest
            &&& archive_plan(zip_path_of(path), has_manifest, dry_run)
                == ArchiveAction::AlreadyProcessed
        }),
{
    law_repack_output_is_zip(path);
    law_output_bears_manifest(nested, config, ms, true, time);
}

/// What is done with a file of the tree. One that has been processed is skipped. An archive, a ZIP
/// as any other, is repacked unless only other files are asked for; any other file is processed
/// unless only archives are asked for.
pub proof fn law_archives_are_told_from_files(
    path: Seq<char>,
    name: Seq<char>,
    files_only: bool,
    archives_only: bool,
)
    requires
        name_of(path) == Some(name),
    ensures
        path_plan(path, true, files_only, archives_only) == PathAction::Skip,
        ({
            let action = path_plan(path, false, files_only, archives_only);
            &&& names_archive(name) ==> action == if files_only {
                PathAction::Skip
            } else {
                PathAction::Archive
            }
            &&& !names_archive(name) ==> action == if archives_only {
                PathAction::Skip
            } else {
                PathAction::File
            }
        }),
{
}

/// A path without a file name is no archive's.
pub proof fn law_nameless_path_is_no_archive(path: Seq<char>, files_only: bool, archives_only: bool)
    requires
        name_of(path) is None,
    ensures
        path_plan(path, false, files_only, archives_only) == if archives_only {
            PathAction::Skip
        } else {
            PathAction::File
        },
{
    if names_archive(name_or_empty(path)) {
        lemma_archive_name_end(name_or_empty(path));
    }
}

/// A ZIP without a manifest is found and repacked; one that bears it is found and left alone.
pub proof fn law_zips_of_the_tree(path: Seq<char>, stem: Seq<char>, suffix: Seq<char>, archives_only: bool)
    requires
        name_of(path) == Some(stem + suffix),
        stem.len() > 0,
        lower(suffix) == ".zip"@,
    ensures
        path_plan(path, false, false, archives_only) == PathAction::Archive,
        archive_plan(path, false, false) == ArchiveAction::Repack,
        archive_plan(path, true, false) == ArchiveAction::AlreadyProcessed,
        archive_plan(path, true, true) == ArchiveAction::AlreadyProcessed,
        archive_plan(path, false, true) == ArchiveAction::DryRun,
{
    law_suffix_makes_an_archive(stem + suffix);
    law_zip_by_extension(path);
    assert(is_archive_suffix(lower(suffix)));
}

/// What is recorded without anything being changed: a file that was left alone for a reason, and an
/// archive that had been repacked, as they were found; of all others, nothing.
pub proof fn law_what_is_left_alone_is_recorded(file: FileAction, archive: ArchiveAction)
    ensures
        file is Skip <==> file.remembered() == Remember::AsFound,
        !(file is Skip) <==> file.remembered() == Remember::Nothing,
        archive is AlreadyProcessed <==> archive.remembered() == Remember::AsFound,
        !(archive is AlreadyProcessed) <==> archive.remembered() == Remember::Nothing,
{
}

/// The archive is removed exactly if the ZIP made from it has another name.
pub proof fn law_removed_if_the_zip_is_another_file(name: Seq<char>)
    ensures
        is_replaced(name) <==> name != stem_of_archive(name) + ".zip"@,
{
}

/// The first rule that matches a file is the one that is applied to it, or would be: where rule
/// `i` matches and none before it does, three answers lead to it or to a reason to leave the file
/// alone, and only a PDF is left alone.
pub proof fn law_file_gets_the_first_matching_rule(
    config: ConfigView,
    i: int,
    filename: Seq<char>,
    answers: spec_fn(PdfCheck) -> bool,
)
    requires
        0 <= i < config.processor.len() <= usize::MAX,
        glob_matches(config.processor[i].pattern, filename),
        forall|j: int| 0 <= j < i ==> !glob_matches(#[trigger] config.processor[j].pattern, filename),
    ensures
        ({
            let done = action_after(
                first_action(config.rule_for(filename), filename, false),
                answers,
                false,
                3,
            );
            let dry = action_after(
                first_action(config.rule_for(filename), filename, true),
                answers,
                true,
                3,
            );
            &&& done matches FileAction::Apply { rule } ==> rule == i
            &&& dry matches FileAction::DryRun { rule } ==> rule == i
            &&& done is Apply || done is Skip
            &&& dry is DryRun || dry is Skip
            &&& dry is Skip <==> done is Skip
            &&& done is Skip ==> names_pdf(filename)
        }),
{
    law_first_match_wins(config, filename);
    law_checks_settle(config.rule_for(filename), filename, answers, false);
    law_checks_settle(config.rule_for(filename), filename, answers, true);
    let r = config.rule_for(filename)->0;
    if r < i {
        assert(!glob_matches(config.processor[r].pattern, filename));
    }
    if i < r {
        assert(!glob_matches(config.processor[i].pattern, filename));
    }
}

/// What was changed is a minute younger than it was; what was left alone keeps its time.
pub proof fn law_what_was_changed_is_younger(mtime: u64)
    ensures
        mtime_after(mtime, Remember::AsLeft) == mtime + 60,
        mtime_after(mtime, Remember::AsFound) == mtime,
        mtime_after(mtime, Remember::Nothing) == mtime,
{
}

} // verus!
