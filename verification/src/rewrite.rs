//! Rewriting a ZIP: its members go through the rules one by one, and the ZIP is written anew if
//! any of them changed.

use crate::config::{law_first_match_wins, Config, ConfigView};
use crate::dispatch::ProcessResult;
use crate::manifest::{build_rewrite_manifest, is_time_text, law_manifest_reads_as_written,
    manifest_read, rewrite_manifest_of, run_entry, MANIFEST_NAME};
use crate::member::{filename_of, member_filename};
use crate::pattern::glob_matches;
use crate::text::{ends_with, has_suffix, same_text, texts};
use vstd::prelude::*;
use vstd::string::*;
use vstd::utf8::encode_utf8;

verus! {

/// What to do with a member of the ZIP.
#[derive(Debug)]
pub enum RewriteAction {
    /// The manifest of an earlier run: it goes.
    DropManifest,
    /// A directory: keep it, without reading it.
    KeepDirectory,
    /// No rule applies: read it and keep it.
    Keep,
    /// The rule at that position would be applied: read the member and keep it.
    WouldProcess { rule: usize },
    /// Read the member, apply the rule at that position to it under that file name, and hand the
    /// result to [`Rewriter::settle`].
    Process { rule: usize, filename: String },
}

/// [`RewriteAction`] as mathematics.
pub enum RewriteView {
    DropManifest,
    KeepDirectory,
    Keep,
    WouldProcess { rule: int },
    Process { rule: int, filename: Seq<char> },
}

impl View for RewriteAction {
    type V = RewriteView;

    open spec fn view(&self) -> RewriteView {
        match self {
            RewriteAction::DropManifest => RewriteView::DropManifest,
            RewriteAction::KeepDirectory => RewriteView::KeepDirectory,
            RewriteAction::Keep => RewriteView::Keep,
            RewriteAction::WouldProcess { rule } => RewriteView::WouldProcess { rule: *rule as int },
            RewriteAction::Process { rule, filename } => RewriteView::Process {
                rule: *rule as int,
                filename: filename@,
            },
        }
    }
}

/// What is done with a member.
pub open spec fn rewrite_plan(config: ConfigView, dry_run: bool, name: Seq<char>, is_dir: bool) -> RewriteView {
    if name == MANIFEST_NAME@ {
        RewriteView::DropManifest
    } else if is_dir {
        RewriteView::KeepDirectory
    } else {
        match config.rule_for(filename_of(name)) {
            None => RewriteView::Keep,
            Some(rule) => if dry_run {
                RewriteView::WouldProcess { rule }
            } else {
                RewriteView::Process { rule, filename: filename_of(name) }
            },
        }
    }
}

/// What happens once all members are read.
#[derive(Debug, Clone, Copy, PartialEq, Eq, Structural)]
pub enum RewriteEnd {
    /// No member changed: the ZIP stays as it is.
    Unchanged,
    /// The ZIP would be written.
    DryRun,
    /// The ZIP is written.
    Write,
}

/// An entry of the new ZIP.
#[derive(Debug)]
pub struct ZipEntry {
    pub name: String,
    pub data: Vec<u8>,
}

/// [`ZipEntry`] as mathematics.
pub struct EntryView {
    pub name: Seq<char>,
    pub data: Seq<u8>,
}

impl View for ZipEntry {
    type V = EntryView;

    open spec fn view(&self) -> EntryView {
        EntryView { name: self.name@, data: self.data@ }
    }
}

impl EntryView {
    /// The entry is written as a directory.
    pub open spec fn is_directory(self) -> bool {
        self.data.len() == 0 && ends_with(self.name, "/"@)
    }
}

impl ZipEntry {
    /// Whether the entry is written as a directory: it is empty and its name ends with `/`.
    pub fn is_directory(&self) -> (res: bool)
        ensures
            res == self@.is_directory(),
    {
        self.data.len() == 0 && has_suffix(self.name.as_str(), "/")
    }
}

/// The views of a list of entries.
pub open spec fn entry_views(entries: Seq<ZipEntry>) -> Seq<EntryView> {
    Seq::new(entries.len(), |i: int| entries[i]@)
}

/// Whether a ZIP is to be processed: not if it bears a manifest, unless that is forced.
pub fn needs_rewrite(has_manifest: bool, force: bool) -> (res: bool)
    ensures
        res == (force || !has_manifest),
{
    force || !has_manifest
}

/// A ZIP being rewritten.
#[derive(Debug)]
pub struct Rewriter {
    /// The members kept so far.
    pub members: Vec<ZipEntry>,
    /// The names of those that changed.
    pub modified: Vec<String>,
}

/// [`Rewriter`] as mathematics.
#[verifier::ext_equal]
pub struct RewriterView {
    pub members: Seq<EntryView>,
    pub modified: Seq<Seq<char>>,
}

impl View for Rewriter {
    type V = RewriterView;

    open spec fn view(&self) -> RewriterView {
        RewriterView { members: entry_views(self.members@), modified: texts(self.modified@) }
    }
}

impl RewriterView {
    /// After one more member was kept.
    pub open spec fn kept(self, name: Seq<char>, data: Seq<u8>) -> RewriterView {
        RewriterView { members: self.members.push(EntryView { name, data }), ..self }
    }

    /// After one more member changed.
    pub open spec fn changed(self, name: Seq<char>, data: Seq<u8>) -> RewriterView {
        RewriterView { modified: self.modified.push(name), ..self.kept(name, data) }
    }

    /// What happens at the end.
    pub open spec fn end(self, dry_run: bool) -> RewriteEnd {
        if self.modified.len() == 0 {
            RewriteEnd::Unchanged
        } else if dry_run {
            RewriteEnd::DryRun
        } else {
            RewriteEnd::Write
        }
    }

    /// The entries of the new ZIP: the members, and the manifest.
    pub open spec fn output(self, time: Seq<char>) -> Seq<EntryView> {
        self.members.push(
            EntryView {
                name: MANIFEST_NAME@,
                data: encode_utf8(rewrite_manifest_of(self.modified, None, time)),
            },
        )
    }
}

/// A rewriter that has not seen a member yet.
pub open spec fn rewrite_start() -> RewriterView {
    RewriterView { members: Seq::empty(), modified: Seq::empty() }
}

impl Rewriter {
    /// A rewriter that has not seen a member yet.
    pub fn new() -> (res: Self)
        ensures
            res@ == rewrite_start(),
    {
        let res = Rewriter { members: Vec::new(), modified: Vec::new() };
        assert(res@ =~= rewrite_start());
        res
    }

    /// What to do with a member.
    pub fn plan(config: &Config, dry_run: bool, name: &str, is_dir: bool) -> (res: RewriteAction)
        ensures
            res@ == rewrite_plan(config@, dry_run, name@, is_dir),
    {
        if same_text(name, MANIFEST_NAME) {
            return RewriteAction::DropManifest;
        }
        if is_dir {
            return RewriteAction::KeepDirectory;
        }
        let filename = member_filename(name);
        match config.find_rule_index(filename.as_str()) {
            None => RewriteAction::Keep,
            Some(rule) => if dry_run {
                RewriteAction::WouldProcess { rule }
            } else {
                RewriteAction::Process { rule, filename }
            },
        }
    }

    /// Keeps a member as it is. A directory is kept without data.
    pub fn keep(&mut self, name: &str, data: Vec<u8>)
        ensures
            final(self)@ == old(self)@.kept(name@, data@),
    {
        self.members.push(ZipEntry { name: name.to_owned(), data });
        assert(self@ =~= old(self)@.kept(name@, data@));
    }

    /// Keeps a member that a rule was applied to: with its new content, if it changed.
    pub fn settle(&mut self, name: &str, data: Vec<u8>, result: ProcessResult)
        ensures
            final(self)@ == match result {
                ProcessResult::Modified(new_data) => old(self)@.changed(name@, new_data@),
                ProcessResult::Unchanged => old(self)@.kept(name@, data@),
            },
    {
        match result {
            ProcessResult::Modified(new_data) => {
                self.modified.push(name.to_owned());
                self.members.push(ZipEntry { name: name.to_owned(), data: new_data });
                assert(self@ =~= old(self)@.changed(name@, new_data@));
            },
            ProcessResult::Unchanged => self.keep(name, data),
        }
    }

    /// What happens once all members are read.
    pub fn finish(&self, dry_run: bool) -> (res: RewriteEnd)
        ensures
            res == self@.end(dry_run),
    {
        if self.modified.len() == 0 {
            RewriteEnd::Unchanged
        } else if dry_run {
            RewriteEnd::DryRun
        } else {
            RewriteEnd::Write
        }
    }

    /// The entries of the new ZIP: the members, and last the manifest.
    pub fn output(self) -> (res: Vec<ZipEntry>)
        ensures
            exists|time: Seq<char>|
                is_time_text(time) && entry_views(res@) == #[trigger] self@.output(time),
    {
        let text = build_rewrite_manifest(self.modified.as_slice(), None);
        let mut out = self.members;
        let data = text.as_str().as_bytes_vec();
        out.push(ZipEntry { name: MANIFEST_NAME.to_owned(), data });
        proof {
            let names = texts(self.modified@);
            let time = choose|time: Seq<char>|
                is_time_text(time) && text@ == #[trigger] rewrite_manifest_of(names, None, time);
            assert(entry_views(out@) =~= self@.output(time));
        }
        out
    }
}

/// A member of the ZIP and what its rule would make of it.
pub struct ZipMember {
    pub name: Seq<char>,
    pub is_dir: bool,
    pub data: Seq<u8>,
    /// What the rule makes of it, if it changes it.
    pub produced: Option<Seq<u8>>,
}

/// The rewriter after all members.
pub open spec fn rewritten(config: ConfigView, dry_run: bool, ms: Seq<ZipMember>) -> RewriterView
    decreases ms.len(),
{
    if ms.len() == 0 {
        rewrite_start()
    } else {
        let before = rewritten(config, dry_run, ms.drop_last());
        let m = ms.last();
        match rewrite_plan(config, dry_run, m.name, m.is_dir) {
            RewriteView::DropManifest => before,
            RewriteView::KeepDirectory => before.kept(m.name, Seq::empty()),
            RewriteView::Keep => before.kept(m.name, m.data),
            RewriteView::WouldProcess { .. } => before.kept(m.name, m.data),
            RewriteView::Process { .. } => match m.produced {
                Some(data) => before.changed(m.name, data),
                None => before.kept(m.name, m.data),
            },
        }
    }
}

/// The members other than the manifest, in order.
pub open spec fn without_manifest(ms: Seq<ZipMember>) -> Seq<ZipMember>
    decreases ms.len(),
{
    if ms.len() == 0 {
        Seq::empty()
    } else if ms.last().name == MANIFEST_NAME@ {
        without_manifest(ms.drop_last())
    } else {
        without_manifest(ms.drop_last()).push(ms.last())
    }
}

/// The member is changed: it is a file that has a rule, the rule is applied, and it changes it.
pub open spec fn is_changed(config: ConfigView, dry_run: bool, m: ZipMember) -> bool {
    &&& !dry_run
    &&& !m.is_dir
    &&& config.rule_for(filename_of(m.name)) is Some
    &&& m.produced is Some
}

/// The names of the members that are changed, in order.
pub open spec fn changed_names(config: ConfigView, dry_run: bool, ms: Seq<ZipMember>) -> Seq<Seq<char>>
    decreases ms.len(),
{
    if ms.len() == 0 {
        Seq::empty()
    } else if is_changed(config, dry_run, ms.last()) {
        changed_names(config, dry_run, ms.drop_last()).push(ms.last().name)
    } else {
        changed_names(config, dry_run, ms.drop_last())
    }
}

/// Rewriting keeps every member but the manifest, in order and under its own name. A file that is
/// changed gets what its rule made of it, any other keeps its content, and exactly those that are
/// changed are listed as modified, in order.
pub proof fn law_rewrite_keeps_members(config: ConfigView, dry_run: bool, ms: Seq<ZipMember>)
    ensures
        ({
            let members = rewritten(config, dry_run, ms).members;
            let kept = without_manifest(ms);
            &&& members.len() == kept.len()
            &&& forall|i: int|
                #![trigger members[i]]
                0 <= i < members.len() ==> {
                    &&& members[i].name == kept[i].name
                    &&& members[i].name != MANIFEST_NAME@
                    &&& members[i].data == if kept[i].is_dir {
                        Seq::empty()
                    } else if is_changed(config, dry_run, kept[i]) {
                        kept[i].produced->0
                    } else {
                        kept[i].data
                    }
                }
            &&& rewritten(config, dry_run, ms).modified == changed_names(config, dry_run, kept)
        }),
    decreases ms.len(),
{
    if ms.len() > 0 {
        law_rewrite_keeps_members(config, dry_run, ms.drop_last());
        let front = without_manifest(ms.drop_last());
        assert(front.push(ms.last()).drop_last() =~= front);
    }
}

/// Nothing is written unless something changed: where each member has no rule or a rule that leaves
/// it as it is, the ZIP stays as it is, forced or not.
pub proof fn law_no_change_no_rewrite(config: ConfigView, dry_run: bool, ms: Seq<ZipMember>)
    requires
        forall|i: int|
            0 <= i < ms.len() ==> config.rule_for(filename_of((#[trigger] ms[i]).name)) is None
                || ms[i].produced is None,
    ensures
        rewritten(config, dry_run, ms).modified.len() == 0,
        rewritten(config, dry_run, ms).end(dry_run) == RewriteEnd::Unchanged,
    decreases ms.len(),
{
    if ms.len() > 0 {
        let front = ms.drop_last();
        assert forall|i: int| 0 <= i < front.len() implies config.rule_for(
            filename_of((#[trigger] front[i]).name),
        ) is None || front[i].produced is None by {
            assert(front[i] == ms[i]);
        }
        law_no_change_no_rewrite(config, dry_run, front);
        let m = ms[ms.len() - 1];
        assert(config.rule_for(filename_of(m.name)) is None || m.produced is None);
    }
}

/// A dry run changes nothing: no member is modified, and the ZIP is not written.
pub proof fn law_dry_run_writes_nothing(config: ConfigView, ms: Seq<ZipMember>)
    ensures
        rewritten(config, true, ms).modified.len() == 0,
        rewritten(config, true, ms).end(true) != RewriteEnd::Write,
    decreases ms.len(),
{
    if ms.len() > 0 {
        law_dry_run_writes_nothing(config, ms.drop_last());
    }
}

/// A ZIP that was rewritten bears exactly one manifest, as its last entry, and so is not rewritten
/// again unless that is forced.
pub proof fn law_rewritten_bears_manifest(config: ConfigView, dry_run: bool, ms: Seq<ZipMember>, time: Seq<char>)
    ensures
        ({
            let out = rewritten(config, dry_run, ms).output(time);
            &&& out.len() > 0
            &&& forall|i: int|
                #![trigger out[i]]
                0 <= i < out.len() ==> (out[i].name == MANIFEST_NAME@ <==> i == out.len() - 1)
        }),
{
    law_rewrite_keeps_members(config, dry_run, ms);
    let run = rewritten(config, dry_run, ms);
    let out = run.output(time);
    assert forall|i: int| #![trigger out[i]] 0 <= i < out.len() implies (out[i].name
        == MANIFEST_NAME@ <==> i == out.len() - 1) by {
        if i < run.members.len() {
            assert(out[i] == run.members[i]);
        }
    }
}

/// What is done with a member, and why: the manifest goes, a directory stays, and a file is
/// processed, or would be in a dry run, exactly if a rule matches its file name; otherwise it
/// stays.
pub proof fn law_each_member_is_looked_at(config: ConfigView, dry_run: bool, name: Seq<char>, is_dir: bool)
    ensures
        ({
            let action = rewrite_plan(config, dry_run, name, is_dir);
            let manifest = name == "archive-assistant.txt"@;
            let has_rule = exists|i: int|
                0 <= i < config.processor.len() && glob_matches(
                    #[trigger] config.processor[i].pattern,
                    filename_of(name),
                );
            &&& manifest ==> action is DropManifest
            &&& !manifest && is_dir ==> action is KeepDirectory
            &&& !manifest && !is_dir && !has_rule ==> action is Keep
            &&& !manifest && !is_dir && has_rule && dry_run ==> action is WouldProcess
            &&& !manifest && !is_dir && has_rule && !dry_run ==> action is Process
        }),
{
    law_first_match_wins(config, filename_of(name));
}

/// The rule that a member is processed by, or would be, is the first whose pattern its file name
/// matches, and it is processed under that file name.
pub proof fn law_rewriting_applies_the_first_matching_rule(
    config: ConfigView,
    dry_run: bool,
    name: Seq<char>,
    is_dir: bool,
)
    ensures
        ({
            let action = rewrite_plan(config, dry_run, name, is_dir);
            let chosen = if action is Process {
                Some(action->Process_rule)
            } else if action is WouldProcess {
                Some(action->WouldProcess_rule)
            } else {
                None
            };
            &&& chosen matches Some(rule) ==> {
                &&& 0 <= rule < config.processor.len()
                &&& glob_matches(config.processor[rule].pattern, filename_of(name))
                &&& forall|j: int|
                    0 <= j < rule ==> !glob_matches(
                        #[trigger] config.processor[j].pattern,
                        filename_of(name),
                    )
            }
            &&& action is Process ==> action->filename == filename_of(name)
        }),
{
    law_first_match_wins(config, filename_of(name));
}

/// A member that is kept goes behind those before it, with its content; only one that changed is
/// listed, behind those before it.
pub proof fn law_members_are_kept_in_order(state: RewriterView, name: Seq<char>, data: Seq<u8>)
    ensures
        ({
            let kept = state.kept(name, data);
            let changed = state.changed(name, data);
            &&& kept.members.len() == state.members.len() + 1
            &&& kept.members.drop_last() == state.members
            &&& kept.members.last().name == name
            &&& kept.members.last().data == data
            &&& kept.modified == state.modified
            &&& changed.members == kept.members
            &&& changed.modified.len() == state.modified.len() + 1
            &&& changed.modified.drop_last() == state.modified
            &&& changed.modified.last() == name
        }),
{
    assert(state.kept(name, data).members.drop_last() =~= state.members);
    assert(state.changed(name, data).modified.drop_last() =~= state.modified);
}

/// The ZIP is written exactly if something changed and it is no dry run; and what is written is
/// every member as it was kept, and the manifest of this run behind them.
pub proof fn law_what_is_written(state: RewriterView, dry_run: bool, time: Seq<char>)
    ensures
        state.end(dry_run) == RewriteEnd::Unchanged <==> state.modified.len() == 0,
        state.end(dry_run) == RewriteEnd::Write <==> state.modified.len() > 0 && !dry_run,
        state.end(dry_run) == RewriteEnd::DryRun <==> state.modified.len() > 0 && dry_run,
        state.output(time).len() == state.members.len() + 1,
        state.output(time).drop_last() == state.members,
        state.output(time).last().name == "archive-assistant.txt"@,
        manifest_read(state.output(time).last().data) == run_entry(state.modified, time),
{
    assert(state.output(time).drop_last() =~= state.members);
    law_manifest_reads_as_written(rewrite_manifest_of(state.modified, None, time));
}

/// An entry is written as a directory exactly if it is empty and its name ends with `/`.
pub proof fn law_directories_are_written_as_such(head: Seq<char>, last: char, data: Seq<u8>)
    ensures
        (EntryView { name: head.push(last), data }).is_directory() <==> last == '/' && data.len() == 0,
        !(EntryView { name: Seq::empty(), data }).is_directory(),
{
    reveal_strlit("/");
    let name = head.push(last);
    assert(name.skip(name.len() - 1) =~= seq![last]);
    assert("/"@ =~= seq!['/']);
    assert(seq![last][0] == last);
}

} // verus!
