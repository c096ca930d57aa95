//! A repacking run as a whole: what the output holds, given what the input holds and what the
//! commands made of it.
//!
//! The functions of [`crate::member`] take a run one member at a time; here their contracts are
//! put together, and what a run promises is proved of them.

use crate::archive::{bears_manifest, file_count, format_of, law_archive_is_readable,
    lemma_archive_name_end, lemma_longer_archive_name, lemma_stem_is_plain, names_archive,
    stem_of_archive};
use crate::config::ConfigView;
use crate::manifest::{manifest_of, manifest_read, MANIFEST_NAME};
use crate::member::{counts, filename_of, flat_prefix_of, full_name, is_manifest, is_skipped,
    nested_zip_of, plan, takes_temp, temp_name, ActionView, NestedMode, RepackView, Scope};
use crate::number::{decimal, is_digit, lemma_decimal};
use crate::path::{is_file_name, last_segment, lemma_name_of_is_plain, name_of, trimmed};
use crate::pdf::names_pdf;
use crate::text::{begins_with, ends_with, lemma_last_position, lower, lower_char};
use vstd::prelude::*;
use vstd::string::*;
use vstd::utf8::encode_utf8;

verus! {

/// A member of the input and what the commands would make of it.
pub struct Member {
    pub name: Seq<char>,
    pub is_dir: bool,
    pub data: Seq<u8>,
    /// What its rule makes of it, if the rule is applied, succeeds and changes it.
    pub produced: Option<Seq<u8>>,
    /// The ZIP that repacking it gives, if that succeeds.
    pub nested_zip: Option<Seq<u8>>,
    /// Its own members, if it is an archive.
    pub inside: Seq<Member>,
}

/// An entry of the output.
pub enum Entry {
    Directory { name: Seq<char> },
    File { name: Seq<char>, data: Seq<u8> },
}

/// A run in progress: its state, and what it has written.
pub struct Run {
    pub state: RepackView,
    pub entries: Seq<Entry>,
}

/// A run that has not seen a member yet.
pub open spec fn start() -> Run {
    Run {
        state: RepackView { modified: Seq::empty(), counter: 0, manifest: None },
        entries: Seq::empty(),
    }
}

impl Member {
    /// What becomes of the member when the rule for `filename` is due.
    pub open spec fn outcome(self, filename: Seq<char>) -> Option<Seq<u8>> {
        if is_skipped(filename, self.data) {
            None
        } else {
            self.produced
        }
    }

    /// The member copied under `name`.
    pub open spec fn copied(self, name: Seq<char>) -> Entry {
        Entry::File { name, data: self.data }
    }
}

impl Run {
    /// The run after one more entry.
    pub open spec fn wrote(self, entry: Entry) -> Run {
        Run { entries: self.entries.push(entry), ..self }
    }

    /// The run after the member `name` was found modified.
    pub open spec fn noted(self, name: Seq<char>) -> Run {
        Run { state: self.state.with_modified(name), ..self }
    }

    /// The run after one more member.
    pub open spec fn member(self, scope: Scope, config: ConfigView, m: Member) -> Run
        decreases m, 0int,
    {
        let action = plan(scope, config, self.state.counter + 1, m.name, m.is_dir);
        let run = Run { state: self.state.planned(action), ..self };
        match action {
            ActionView::AddDirectory { name } => run.wrote(Entry::Directory { name }),
            ActionView::TakeManifest => Run {
                state: RepackView { manifest: Some(manifest_read(m.data)), ..run.state },
                ..run
            },
            ActionView::Exclude => run,
            ActionView::CopyThrough { name } => run.wrote(m.copied(name)),
            ActionView::Flatten { prefix, .. } => run.members(Scope::Inside(prefix), config, m.inside),
            ActionView::Repack { zip_name, .. } => match m.nested_zip {
                Some(zip) => run.noted(m.name).wrote(Entry::File { name: zip_name, data: zip }),
                None => run.wrote(m.copied(m.name)),
            },
            ActionView::Process { filename, name, .. } => match m.outcome(filename) {
                Some(data) => run.noted(name).wrote(Entry::File { name, data }),
                None => run.wrote(m.copied(name)),
            },
        }
    }

    /// The run after several more members, in order.
    pub open spec fn members(self, scope: Scope, config: ConfigView, ms: Seq<Member>) -> Run
        decreases ms, 1int,
    {
        if ms.len() == 0 {
            self
        } else {
            self.members(scope, config, ms.drop_last()).member(scope, config, ms[ms.len() - 1])
        }
    }

    /// The output: what the run has written, and the manifest.
    pub open spec fn output(self, write_manifest: bool, time: Seq<char>) -> Seq<Entry> {
        if write_manifest || self.state.manifest is Some {
            self.entries.push(
                Entry::File {
                    name: MANIFEST_NAME@,
                    data: encode_utf8(manifest_of(self.state.manifest, self.state.modified, time)),
                },
            )
        } else {
            self.entries
        }
    }
}

/// The name of an entry.
pub open spec fn entry_name(entry: Entry) -> Seq<char> {
    match entry {
        Entry::Directory { name } => name,
        Entry::File { name, .. } => name,
    }
}

/// The entry is a manifest.
pub open spec fn is_manifest_entry(entry: Entry) -> bool {
    entry is File && entry_name(entry) == MANIFEST_NAME@
}

/// The member is neither the manifest nor left out.
pub open spec fn is_kept(scope: Scope, config: ConfigView, m: Member) -> bool {
    m.is_dir || !(is_manifest(scope, m.name, m.is_dir) || config.excludes(full_name(scope, m.name)))
}

/// The members that are kept, in order.
pub open spec fn kept(scope: Scope, config: ConfigView, ms: Seq<Member>) -> Seq<Member>
    decreases ms.len(),
{
    if ms.len() == 0 {
        Seq::empty()
    } else if is_kept(scope, config, ms.last()) {
        kept(scope, config, ms.drop_last()).push(ms.last())
    } else {
        kept(scope, config, ms.drop_last())
    }
}

/// Members are independent: what a member adds to the output and to the list of modified members
/// does not depend on what came before it.
pub proof fn law_members_are_independent(run: Run, scope: Scope, config: ConfigView, m: Member)
    ensures
        run.member(scope, config, m).entries == run.entries + start().member(
            scope,
            config,
            m,
        ).entries,
        run.member(scope, config, m).state.modified == run.state.modified + start().member(
            scope,
            config,
            m,
        ).state.modified,
    decreases m, 0int,
{
    let action = plan(scope, config, run.state.counter + 1, m.name, m.is_dir);
    let fresh = plan(scope, config, start().state.counter + 1, m.name, m.is_dir);
    if let ActionView::Flatten { prefix, .. } = action {
        assert(fresh is Flatten && fresh->Flatten_prefix == prefix);
        let a = Run { state: run.state.planned(action), ..run };
        let b = Run { state: start().state.planned(fresh), ..start() };
        lemma_sequences_are_independent(a, Scope::Inside(prefix), config, m.inside);
        lemma_sequences_are_independent(b, Scope::Inside(prefix), config, m.inside);
        let inner = start().members(Scope::Inside(prefix), config, m.inside);
        assert(b.entries + inner.entries =~= inner.entries);
        assert(b.state.modified + inner.state.modified =~= inner.state.modified);
    } else {
        let x = run.member(scope, config, m);
        let y = start().member(scope, config, m);
        assert(x.entries =~= run.entries + y.entries);
        assert(x.state.modified =~= run.state.modified + y.state.modified);
    }
}

proof fn lemma_sequences_are_independent(run: Run, scope: Scope, config: ConfigView, ms: Seq<Member>)
    ensures
        run.members(scope, config, ms).entries == run.entries + start().members(
            scope,
            config,
            ms,
        ).entries,
        run.members(scope, config, ms).state.modified == run.state.modified + start().members(
            scope,
            config,
            ms,
        ).state.modified,
    decreases ms, 1int,
{
    if ms.len() == 0 {
        assert(run.entries =~= run.entries + start().entries);
        assert(run.state.modified =~= run.state.modified + start().state.modified);
    } else {
        let last = ms[ms.len() - 1];
        let a = run.members(scope, config, ms.drop_last());
        let b = start().members(scope, config, ms.drop_last());
        lemma_sequences_are_independent(run, scope, config, ms.drop_last());
        law_members_are_independent(a, scope, config, last);
        law_members_are_independent(b, scope, config, last);
        assert(run.members(scope, config, ms).entries =~= run.entries + start().members(
            scope,
            config,
            ms,
        ).entries);
        assert(run.members(scope, config, ms).state.modified =~= run.state.modified + start().members(
            scope,
            config,
            ms,
        ).state.modified);
    }
}

/// A run over some members and then over others is the run over all of them.
pub proof fn law_runs_compose(
    run: Run,
    scope: Scope,
    config: ConfigView,
    first: Seq<Member>,
    second: Seq<Member>,
)
    ensures
        run.members(scope, config, first + second) == run.members(scope, config, first).members(
            scope,
            config,
            second,
        ),
    decreases second.len(),
{
    let all = first + second;
    if second.len() == 0 {
        assert(all =~= first);
    } else {
        assert(all.drop_last() =~= first + second.drop_last());
        law_runs_compose(run, scope, config, first, second.drop_last());
    }
}

/// An excluded member leaves no trace.
pub proof fn law_excluded_leaves_no_trace(run: Run, scope: Scope, config: ConfigView, m: Member)
    requires
        !m.is_dir,
        !is_manifest(scope, m.name, m.is_dir),
        config.excludes(full_name(scope, m.name)),
    ensures
        run.member(scope, config, m) == run,
{
}

/// A PDF that is encrypted or has been through OCR already is copied as it is, whatever a rule
/// would make of it, and does not count as modified.
pub proof fn law_skipped_is_copied(run: Run, scope: Scope, config: ConfigView, m: Member)
    requires
        !m.is_dir,
        is_kept(scope, config, m),
        !names_archive(filename_of(m.name)),
        is_skipped(filename_of(m.name), m.data),
    ensures
        run.member(scope, config, m) == run.wrote(m.copied(full_name(scope, m.name))),
{
}

/// A member without a rule, or whose rule fails or changes nothing, is copied as it is and does
/// not count as modified.
pub proof fn law_untouched_is_copied(run: Run, scope: Scope, config: ConfigView, m: Member)
    requires
        !m.is_dir,
        is_kept(scope, config, m),
        !names_archive(filename_of(m.name)),
        config.rule_for(filename_of(m.name)) is None || m.produced is None,
    ensures
        run.member(scope, config, m) == run.wrote(m.copied(full_name(scope, m.name))),
{
}

/// Only PDFs are looked into: any other member that has a rule gets what the rule makes of it,
/// whatever it holds.
pub proof fn law_other_files_are_processed(run: Run, scope: Scope, config: ConfigView, m: Member)
    requires
        !m.is_dir,
        is_kept(scope, config, m),
        !names_archive(filename_of(m.name)),
        !names_pdf(filename_of(m.name)),
        config.rule_for(filename_of(m.name)) is Some,
        m.produced is Some,
    ensures
        run.member(scope, config, m) == run.noted(full_name(scope, m.name)).wrote(
            Entry::File { name: full_name(scope, m.name), data: m.produced->0 },
        ),
{
}

/// A member that its rule changes is written with its new content and is listed as modified.
pub proof fn law_modified_is_listed(run: Run, scope: Scope, config: ConfigView, m: Member)
    requires
        !m.is_dir,
        is_kept(scope, config, m),
        !names_archive(filename_of(m.name)),
        config.rule_for(filename_of(m.name)) is Some,
        m.outcome(filename_of(m.name)) is Some,
    ensures
        run.member(scope, config, m) == run.noted(full_name(scope, m.name)).wrote(
            Entry::File {
                name: full_name(scope, m.name),
                data: m.outcome(filename_of(m.name))->0,
            },
        ),
{
}

/// A nested archive that is passed through is copied as it is, whatever rules there are.
pub proof fn law_passthrough_copies(run: Run, config: ConfigView, m: Member)
    requires
        !m.is_dir,
        is_kept(Scope::Top(NestedMode::Passthrough), config, m),
        names_archive(filename_of(m.name)),
    ensures
        run.member(Scope::Top(NestedMode::Passthrough), config, m) == run.wrote(m.copied(m.name)),
{
}

/// The member is a file whose content is changed: its rule changes it, or it is a nested archive
/// that is repacked.
pub open spec fn is_changed(scope: Scope, config: ConfigView, m: Member) -> bool {
    &&& !m.is_dir
    &&& if names_archive(filename_of(m.name)) {
        scope == Scope::Top(NestedMode::Repack) && m.nested_zip is Some
    } else {
        config.rule_for(filename_of(m.name)) is Some && m.outcome(filename_of(m.name)) is Some
    }
}

/// The entry that a member which is kept, and is no archive to be flattened, leaves.
pub open spec fn own_entry(scope: Scope, config: ConfigView, m: Member) -> Entry {
    let full = full_name(scope, m.name);
    if m.is_dir {
        Entry::Directory { name: full }
    } else if !is_changed(scope, config, m) {
        m.copied(full)
    } else if names_archive(filename_of(m.name)) {
        Entry::File { name: nested_zip_of(m.name), data: m.nested_zip->0 }
    } else {
        Entry::File { name: full, data: m.outcome(filename_of(m.name))->0 }
    }
}

/// The names of the members that are changed, in order.
pub open spec fn changed_names(scope: Scope, config: ConfigView, ms: Seq<Member>) -> Seq<Seq<char>>
    decreases ms.len(),
{
    if ms.len() == 0 {
        Seq::empty()
    } else if is_changed(scope, config, ms.last()) {
        changed_names(scope, config, ms.drop_last()).push(full_name(scope, ms.last().name))
    } else {
        changed_names(scope, config, ms.drop_last())
    }
}

/// The member is a nested archive that is flattened.
pub open spec fn is_flattened(scope: Scope, config: ConfigView, m: Member) -> bool {
    &&& !m.is_dir
    &&& is_kept(scope, config, m)
    &&& names_archive(filename_of(m.name))
    &&& scope == Scope::Top(NestedMode::Flatten) || scope is Inside
}

proof fn lemma_one_entry_each(scope: Scope, config: ConfigView, ms: Seq<Member>)
    requires
        forall|i: int| 0 <= i < ms.len() ==> !is_flattened(scope, config, #[trigger] ms[i]),
    ensures
        ({
            let run = start().members(scope, config, ms);
            let members = kept(scope, config, ms);
            &&& run.entries.len() == members.len()
            &&& forall|i: int|
                #![trigger run.entries[i]]
                0 <= i < members.len() ==> run.entries[i] == own_entry(scope, config, members[i])
            &&& run.state.modified == changed_names(scope, config, members)
        }),
    decreases ms.len(),
{
    if ms.len() > 0 {
        let front = ms.drop_last();
        let m = ms[ms.len() - 1];
        assert forall|i: int| 0 <= i < front.len() implies !is_flattened(
            scope,
            config,
            #[trigger] front[i],
        ) by {
            assert(front[i] == ms[i]);
        }
        lemma_one_entry_each(scope, config, front);
        let before = start().members(scope, config, front);
        let members = kept(scope, config, front);
        assert(start().members(scope, config, ms) == before.member(scope, config, m));
        assert(!is_flattened(scope, config, m));
        assert(members.push(m).drop_last() =~= members);
    }
}

/// Unless nested archives are flattened, each member that is kept leaves exactly one entry, and
/// the entries stand in the order of the members.
///
/// An entry bears the name of its member, and its content, unless the member is changed; a member
/// is changed only by its rule or, where that is the mode, by being repacked. In particular a
/// nested archive that is passed through, and a file without a rule, is there as it was. Exactly
/// the members that are changed are listed as modified, in order.
pub proof fn law_kept_members_stay_in_order(nested: NestedMode, config: ConfigView, ms: Seq<Member>)
    requires
        nested != NestedMode::Flatten,
    ensures
        ({
            let scope = Scope::Top(nested);
            let run = start().members(scope, config, ms);
            let members = kept(scope, config, ms);
            &&& run.entries.len() == members.len()
            &&& forall|i: int|
                #![trigger run.entries[i]]
                0 <= i < members.len() ==> {
                    let m = members[i];
                    &&& run.entries[i] == own_entry(scope, config, m)
                    &&& run.entries[i] is Directory == m.is_dir
                    &&& entry_name(run.entries[i]) == m.name || {
                        &&& nested == NestedMode::Repack
                        &&& names_archive(filename_of(m.name))
                        &&& entry_name(run.entries[i]) == nested_zip_of(m.name)
                    }
                    &&& !m.is_dir && nested == NestedMode::Passthrough && (names_archive(
                        filename_of(m.name),
                    ) || config.rule_for(filename_of(m.name)) is None) ==> run.entries[i]
                        == m.copied(m.name)
                }
            &&& run.state.modified == changed_names(scope, config, members)
        }),
{
    lemma_one_entry_each(Scope::Top(nested), config, ms);
}

/// Flattening keeps everything: of an archive without archives in it, each member that is kept
/// leaves exactly one entry, in order, under its own name after the prefix. It has the content of
/// its member unless the rule of the member changes it, and exactly those that are changed are
/// listed as modified.
pub proof fn law_flattened_members_stay_in_order(prefix: Seq<char>, config: ConfigView, ms: Seq<Member>)
    requires
        forall|i: int|
            0 <= i < ms.len() && !ms[i].is_dir ==> !names_archive(
                filename_of((#[trigger] ms[i]).name),
            ),
    ensures
        ({
            let scope = Scope::Inside(prefix);
            let run = start().members(scope, config, ms);
            let members = kept(scope, config, ms);
            &&& run.entries.len() == members.len()
            &&& forall|i: int|
                #![trigger run.entries[i]]
                0 <= i < members.len() ==> {
                    &&& run.entries[i] == own_entry(scope, config, members[i])
                    &&& entry_name(run.entries[i]) == prefix + members[i].name
                }
            &&& run.state.modified == changed_names(scope, config, members)
        }),
{
    let scope = Scope::Inside(prefix);
    assert forall|i: int| 0 <= i < ms.len() implies !is_flattened(scope, config, #[trigger] ms[i]) by {
    }
    lemma_one_entry_each(scope, config, ms);
    lemma_kept_are_members(scope, config, ms);
}

proof fn lemma_kept_are_members(scope: Scope, config: ConfigView, ms: Seq<Member>)
    ensures
        forall|i: int|
            0 <= i < kept(scope, config, ms).len() ==> ms.contains(
                #[trigger] kept(scope, config, ms)[i],
            ),
    decreases ms.len(),
{
    if ms.len() > 0 {
        let front = ms.drop_last();
        let all = kept(scope, config, ms);
        lemma_kept_are_members(scope, config, front);
        assert forall|i: int| 0 <= i < all.len() implies ms.contains(#[trigger] all[i]) by {
            if i < kept(scope, config, front).len() {
                let j = choose|j: int| 0 <= j < front.len() && front[j] == kept(scope, config, front)[i];
                assert(ms[j] == all[i]);
            } else {
                assert(ms[ms.len() - 1] == all[i]);
            }
        }
    }
}

/// An archive that is flattened gives way to its members: what it adds to the output and to the
/// list of modified members is what they add, under the directory named after it.
pub proof fn law_archive_gives_way_to_its_members(run: Run, scope: Scope, config: ConfigView, m: Member)
    requires
        is_flattened(scope, config, m),
    ensures
        ({
            let prefix = match scope {
                Scope::Top(_) => flat_prefix_of(Seq::empty(), m.name),
                Scope::Inside(outer) => flat_prefix_of(outer, m.name),
            };
            let inner = start().members(Scope::Inside(prefix), config, m.inside);
            let after = run.member(scope, config, m);
            &&& after.entries == run.entries + inner.entries
            &&& after.state.modified == run.state.modified + inner.state.modified
        }),
{
    let action = plan(scope, config, run.state.counter + 1, m.name, m.is_dir);
    let planned = Run { state: run.state.planned(action), ..run };
    lemma_sequences_are_independent(
        planned,
        Scope::Inside(action->Flatten_prefix),
        config,
        m.inside,
    );
}

/// Without rules and exclusions, and with nested archives passed through, the output holds what
/// the input holds, member for member.
pub proof fn law_nothing_to_do_copies_all(config: ConfigView, ms: Seq<Member>)
    requires
        config.exclude.len() == 0,
        config.processor.len() == 0,
        forall|i: int| 0 <= i < ms.len() && !ms[i].is_dir ==> ms[i].name != MANIFEST_NAME@,
    ensures
        ({
            let run = start().members(Scope::Top(NestedMode::Passthrough), config, ms);
            &&& run.state == start().state
            &&& run.entries.len() == ms.len()
            &&& forall|i: int|
                #![trigger run.entries[i]]
                0 <= i < ms.len() ==> run.entries[i] == if ms[i].is_dir {
                    Entry::Directory { name: ms[i].name }
                } else {
                    ms[i].copied(ms[i].name)
                }
        }),
    decreases ms.len(),
{
    if ms.len() > 0 {
        let scope = Scope::Top(NestedMode::Passthrough);
        let m = ms.last();
        assert(!config.excludes(m.name));
        assert(config.rule_for(filename_of(m.name)) is None);
        law_nothing_to_do_copies_all(config, ms.drop_last());
        assert(start().members(scope, config, ms) == start().members(
            scope,
            config,
            ms.drop_last(),
        ).member(scope, config, m));
    }
}

proof fn lemma_begins_with_through(s: Seq<char>, mid: Seq<char>, head: Seq<char>)
    requires
        begins_with(s, mid),
        begins_with(mid, head),
    ensures
        begins_with(s, head),
{
    assert(s.take(head.len() as int) =~= s.take(mid.len() as int).take(head.len() as int));
}

/// Flattening stays inside: whatever the members of a nested archive are called, all that they
/// leave in the output stands under the directory that the archive is flattened into.
pub proof fn law_flattened_stays_inside(prefix: Seq<char>, config: ConfigView, ms: Seq<Member>)
    ensures
        ({
            let entries = start().members(Scope::Inside(prefix), config, ms).entries;
            forall|i: int|
                #![trigger entries[i]]
                0 <= i < entries.len() ==> begins_with(entry_name(entries[i]), prefix)
        }),
    decreases ms, 1int,
{
    if ms.len() > 0 {
        let scope = Scope::Inside(prefix);
        let m = ms[ms.len() - 1];
        let before = start().members(scope, config, ms.drop_last());
        law_flattened_stays_inside(prefix, config, ms.drop_last());
        lemma_flattened_member_stays_inside(prefix, config, m);
        law_members_are_independent(before, scope, config, m);
        let own = start().member(scope, config, m).entries;
        let entries = start().members(scope, config, ms).entries;
        assert(entries == before.entries + own);
        assert forall|i: int| #![trigger entries[i]] 0 <= i < entries.len() implies begins_with(
            entry_name(entries[i]),
            prefix,
        ) by {
            if i < before.entries.len() {
                assert(entries[i] == before.entries[i]);
            } else {
                assert(entries[i] == own[i - before.entries.len()]);
            }
        }
    }
}

proof fn lemma_flattened_member_stays_inside(prefix: Seq<char>, config: ConfigView, m: Member)
    ensures
        ({
            let entries = start().member(Scope::Inside(prefix), config, m).entries;
            forall|i: int|
                #![trigger entries[i]]
                0 <= i < entries.len() ==> begins_with(entry_name(entries[i]), prefix)
        }),
    decreases m, 0int,
{
    let scope = Scope::Inside(prefix);
    let action = plan(scope, config, start().state.counter + 1, m.name, m.is_dir);
    let entries = start().member(scope, config, m).entries;
    assert((prefix + m.name).take(prefix.len() as int) =~= prefix);
    if let ActionView::Flatten { prefix: deeper, .. } = action {
        let run = Run { state: start().state.planned(action), ..start() };
        assert(deeper.take(prefix.len() as int) =~= prefix);
        law_flattened_stays_inside(deeper, config, m.inside);
        lemma_sequences_are_independent(run, Scope::Inside(deeper), config, m.inside);
        let inner = start().members(Scope::Inside(deeper), config, m.inside).entries;
        assert(entries =~= inner);
        assert forall|i: int| #![trigger entries[i]] 0 <= i < entries.len() implies begins_with(
            entry_name(entries[i]),
            prefix,
        ) by {
            lemma_begins_with_through(entry_name(inner[i]), deeper, prefix);
        }
    }
}

/// Unless nested archives are repacked, no file in the output but the manifest has a name that is
/// excluded.
pub proof fn law_no_excluded_file(scope: Scope, config: ConfigView, ms: Seq<Member>)
    requires
        scope != Scope::Top(NestedMode::Repack),
    ensures
        ({
            let entries = start().members(scope, config, ms).entries;
            forall|i: int|
                #![trigger entries[i]]
                0 <= i < entries.len() && entries[i] is File ==> !config.excludes(
                    entry_name(entries[i]),
                )
        }),
    decreases ms, 1int,
{
    if ms.len() > 0 {
        let m = ms[ms.len() - 1];
        let before = start().members(scope, config, ms.drop_last());
        law_no_excluded_file(scope, config, ms.drop_last());
        lemma_no_excluded_file(scope, config, m);
        law_members_are_independent(before, scope, config, m);
        let own = start().member(scope, config, m).entries;
        let entries = start().members(scope, config, ms).entries;
        assert(entries == before.entries + own);
        assert forall|i: int|
            #![trigger entries[i]]
            0 <= i < entries.len() && entries[i] is File implies !config.excludes(
            entry_name(entries[i]),
        ) by {
            if i < before.entries.len() {
                assert(entries[i] == before.entries[i]);
            } else {
                assert(entries[i] == own[i - before.entries.len()]);
            }
        }
    }
}

proof fn lemma_no_excluded_file(scope: Scope, config: ConfigView, m: Member)
    requires
        scope != Scope::Top(NestedMode::Repack),
    ensures
        ({
            let entries = start().member(scope, config, m).entries;
            forall|i: int|
                #![trigger entries[i]]
                0 <= i < entries.len() && entries[i] is File ==> !config.excludes(
                    entry_name(entries[i]),
                )
        }),
    decreases m, 0int,
{
    let action = plan(scope, config, start().state.counter + 1, m.name, m.is_dir);
    let entries = start().member(scope, config, m).entries;
    if let ActionView::Flatten { prefix, .. } = action {
        let run = Run { state: start().state.planned(action), ..start() };
        law_no_excluded_file(Scope::Inside(prefix), config, m.inside);
        lemma_sequences_are_independent(run, Scope::Inside(prefix), config, m.inside);
        assert(entries =~= start().members(Scope::Inside(prefix), config, m.inside).entries);
    }
}

proof fn lemma_no_manifest_copied(nested: NestedMode, config: ConfigView, m: Member)
    ensures
        ({
            let entries = start().member(Scope::Top(nested), config, m).entries;
            forall|i: int|
                #![trigger entries[i]]
                0 <= i < entries.len() ==> !is_manifest_entry(entries[i])
        }),
{
    reveal_strlit("archive-assistant.txt");
    reveal_strlit(".zip");
    reveal_strlit("/");
    let scope = Scope::Top(nested);
    let action = plan(scope, config, start().state.counter + 1, m.name, m.is_dir);
    let entries = start().member(scope, config, m).entries;
    if let ActionView::Flatten { prefix, .. } = action {
        let run = Run { state: start().state.planned(action), ..start() };
        law_flattened_stays_inside(prefix, config, m.inside);
        lemma_sequences_are_independent(run, Scope::Inside(prefix), config, m.inside);
        let inner = start().members(Scope::Inside(prefix), config, m.inside).entries;
        assert(entries =~= inner);
        assert(prefix[prefix.len() - 1] == '/');
        assert forall|i: int| #![trigger entries[i]] 0 <= i < entries.len() implies !is_manifest_entry(
            entries[i],
        ) by {
            let name = entry_name(inner[i]);
            assert(name.take(prefix.len() as int)[prefix.len() - 1] == '/');
            assert(name[prefix.len() - 1] == '/');
        }
    } else if let ActionView::Repack { zip_name, .. } = action {
        assert(zip_name[zip_name.len() - 1] == 'p');
    }
}

/// A manifest in the input is never copied: before the manifest of the run itself is written, the
/// output holds none.
pub proof fn law_manifest_is_never_copied(nested: NestedMode, config: ConfigView, ms: Seq<Member>)
    ensures
        ({
            let entries = start().members(Scope::Top(nested), config, ms).entries;
            forall|i: int|
                #![trigger entries[i]]
                0 <= i < entries.len() ==> !is_manifest_entry(entries[i])
        }),
    decreases ms.len(),
{
    if ms.len() > 0 {
        let scope = Scope::Top(nested);
        let m = ms[ms.len() - 1];
        let before = start().members(scope, config, ms.drop_last());
        law_manifest_is_never_copied(nested, config, ms.drop_last());
        lemma_no_manifest_copied(nested, config, m);
        law_members_are_independent(before, scope, config, m);
        let own = start().member(scope, config, m).entries;
        let entries = start().members(scope, config, ms).entries;
        assert(entries == before.entries + own);
        assert forall|i: int| #![trigger entries[i]] 0 <= i < entries.len() implies !is_manifest_entry(
            entries[i],
        ) by {
            if i < before.entries.len() {
                assert(entries[i] == before.entries[i]);
            } else {
                assert(entries[i] == own[i - before.entries.len()]);
            }
        }
    }
}

proof fn lemma_flattening_takes_no_manifest(run: Run, prefix: Seq<char>, config: ConfigView, ms: Seq<Member>)
    ensures
        run.members(Scope::Inside(prefix), config, ms).state.manifest == run.state.manifest,
    decreases ms, 1int,
{
    if ms.len() > 0 {
        let m = ms[ms.len() - 1];
        let before = run.members(Scope::Inside(prefix), config, ms.drop_last());
        lemma_flattening_takes_no_manifest(run, prefix, config, ms.drop_last());
        let action = plan(Scope::Inside(prefix), config, before.state.counter + 1, m.name, m.is_dir);
        if let ActionView::Flatten { prefix: deeper, .. } = action {
            let inner = Run { state: before.state.planned(action), ..before };
            lemma_flattening_takes_no_manifest(inner, deeper, config, m.inside);
        }
        assert(run.members(Scope::Inside(prefix), config, ms) == before.member(
            Scope::Inside(prefix),
            config,
            m,
        ));
    }
}

/// The manifest that a run knows of is the last that the input holds at its top level; those of
/// nested archives do not count.
pub proof fn law_manifest_is_found(nested: NestedMode, config: ConfigView, ms: Seq<Member>)
    ensures
        ({
            let scope = Scope::Top(nested);
            match start().members(scope, config, ms).state.manifest {
                Some(text) => exists|i: int|
                    {
                        &&& 0 <= i < ms.len()
                        &&& is_manifest(scope, (#[trigger] ms[i]).name, ms[i].is_dir)
                        &&& text == manifest_read(ms[i].data)
                        &&& forall|j: int|
                            i < j < ms.len() ==> !is_manifest(
                                scope,
                                (#[trigger] ms[j]).name,
                                ms[j].is_dir,
                            )
                    },
                None => forall|j: int|
                    0 <= j < ms.len() ==> !is_manifest(
                        scope,
                        (#[trigger] ms[j]).name,
                        ms[j].is_dir,
                    ),
            }
        }),
    decreases ms.len(),
{
    if ms.len() > 0 {
        let scope = Scope::Top(nested);
        let m = ms[ms.len() - 1];
        let front = ms.drop_last();
        let before = start().members(scope, config, front);
        law_manifest_is_found(nested, config, front);
        let action = plan(scope, config, before.state.counter + 1, m.name, m.is_dir);
        let after = start().members(scope, config, ms);
        assert(after == before.member(scope, config, m));
        if let ActionView::Flatten { prefix, .. } = action {
            let inner = Run { state: before.state.planned(action), ..before };
            lemma_flattening_takes_no_manifest(inner, prefix, config, m.inside);
        }
        if action is TakeManifest {
            assert(is_manifest(scope, ms[ms.len() - 1].name, ms[ms.len() - 1].is_dir));
        } else {
            assert(after.state.manifest == before.state.manifest);
            if before.state.manifest is Some {
                let i = choose|i: int|
                    {
                        &&& 0 <= i < front.len()
                        &&& is_manifest(scope, (#[trigger] front[i]).name, front[i].is_dir)
                        &&& before.state.manifest->0 == manifest_read(front[i].data)
                        &&& forall|j: int|
                            i < j < front.len() ==> !is_manifest(
                                scope,
                                (#[trigger] front[j]).name,
                                front[j].is_dir,
                            )
                    };
                assert(ms[i] == front[i]);
                assert forall|j: int| i < j < ms.len() implies !is_manifest(
                    scope,
                    (#[trigger] ms[j]).name,
                    ms[j].is_dir,
                ) by {
                    if j < front.len() {
                        assert(ms[j] == front[j]);
                    }
                }
            } else {
                assert forall|j: int| 0 <= j < ms.len() implies !is_manifest(
                    scope,
                    (#[trigger] ms[j]).name,
                    ms[j].is_dir,
                ) by {
                    if j < front.len() {
                        assert(ms[j] == front[j]);
                    }
                }
            }
        }
    }
}

/// The output holds a manifest if and only if one was asked for or the input held one; it is then
/// the last entry, and the only one.
pub proof fn law_one_manifest_at_the_end(
    nested: NestedMode,
    config: ConfigView,
    ms: Seq<Member>,
    write_manifest: bool,
    time: Seq<char>,
)
    ensures
        ({
            let scope = Scope::Top(nested);
            let out = start().members(scope, config, ms).output(write_manifest, time);
            let wanted = write_manifest || exists|i: int|
                0 <= i < ms.len() && is_manifest(scope, (#[trigger] ms[i]).name, ms[i].is_dir);
            forall|i: int|
                #![trigger out[i]]
                0 <= i < out.len() ==> (is_manifest_entry(out[i]) <==> wanted && i == out.len() - 1)
        }),
        write_manifest ==> start().members(Scope::Top(nested), config, ms).output(
            write_manifest,
            time,
        ).len() > 0,
{
    law_manifest_is_never_copied(nested, config, ms);
    law_manifest_is_found(nested, config, ms);
    let scope = Scope::Top(nested);
    let run = start().members(scope, config, ms);
    let out = run.output(write_manifest, time);
    assert forall|i: int| #![trigger out[i]] 0 <= i < out.len() implies (is_manifest_entry(out[i])
        <==> (write_manifest || exists|k: int|
        0 <= k < ms.len() && is_manifest(scope, (#[trigger] ms[k]).name, ms[k].is_dir)) && i
        == out.len() - 1) by {
        if i < run.entries.len() {
            assert(out[i] == run.entries[i]);
        }
    }
}

/// The name under which a ZIP stores an entry: that of a directory ends with `/`.
pub open spec fn stored_name(entry: Entry) -> Seq<char> {
    match entry {
        Entry::File { name, .. } => name,
        Entry::Directory { name } => if ends_with(name, "/"@) {
            name
        } else {
            name + "/"@
        },
    }
}

/// The names that a ZIP stores.
pub open spec fn stored_names(entries: Seq<Entry>) -> Seq<Seq<char>> {
    Seq::new(entries.len(), |i: int| stored_name(entries[i]))
}

/// The output is a ZIP that bears the manifest, however nested archives are treated, if and only
/// if the manifest was asked for or the input held one.
pub proof fn law_output_bears_manifest(
    nested: NestedMode,
    config: ConfigView,
    ms: Seq<Member>,
    write_manifest: bool,
    time: Seq<char>,
)
    ensures
        ({
            let scope = Scope::Top(nested);
            let out = start().members(scope, config, ms).output(write_manifest, time);
            bears_manifest(Some(stored_names(out))) <==> write_manifest || exists|i: int|
                0 <= i < ms.len() && is_manifest(scope, (#[trigger] ms[i]).name, ms[i].is_dir)
        }),
{
    law_one_manifest_at_the_end(nested, config, ms, write_manifest, time);
    law_manifest_is_found(nested, config, ms);
    reveal_strlit("archive-assistant.txt");
    reveal_strlit("/");
    let scope = Scope::Top(nested);
    let run = start().members(scope, config, ms);
    let out = run.output(write_manifest, time);
    let names = stored_names(out);
    if write_manifest || run.state.manifest is Some {
        let last = out.len() - 1;
        assert(is_manifest_entry(out[last]));
        assert(names[last] == MANIFEST_NAME@);
    }
    if names.contains(MANIFEST_NAME@) {
        let i = choose|i: int| 0 <= i < names.len() && names[i] == MANIFEST_NAME@;
        let name = stored_name(out[i]);
        if out[i] is Directory {
            assert(name.skip(name.len() - 1)[0] == '/');
            assert(name[name.len() - 1] == '/');
        }
        assert(is_manifest_entry(out[i]));
    }
}

/// What one run writes, the next one reads: where the manifest of the input is the text `t`, as an
/// earlier run wrote it, the manifest of this run is `t` with the entry of this run appended.
pub proof fn law_manifest_is_read_back(
    nested: NestedMode,
    config: ConfigView,
    ms: Seq<Member>,
    at: int,
    t: Seq<char>,
    write_manifest: bool,
    time: Seq<char>,
)
    requires
        0 <= at < ms.len(),
        ms[at].data == encode_utf8(t),
        forall|i: int|
            0 <= i < ms.len() ==> (is_manifest(
                Scope::Top(nested),
                (#[trigger] ms[i]).name,
                ms[i].is_dir,
            ) <==> i == at),
    ensures
        ({
            let run = start().members(Scope::Top(nested), config, ms);
            run.output(write_manifest, time) == run.entries.push(
                Entry::File {
                    name: MANIFEST_NAME@,
                    data: encode_utf8(manifest_of(Some(t), run.state.modified, time)),
                },
            )
        }),
{
    law_manifest_is_found(nested, config, ms);
    vstd::utf8::encode_utf8_valid_utf8(t);
    vstd::utf8::encode_utf8_decode_utf8(t);
    assert(is_manifest(Scope::Top(nested), ms[at].name, ms[at].is_dir));
}

proof fn lemma_archive_filename_is_plain(name: Seq<char>)
    requires
        names_archive(filename_of(name)),
    ensures
        !filename_of(name).contains('/'),
{
    if name_of(name) is Some {
        lemma_name_of_is_plain(name);
    } else {
        lemma_archive_name_end(name);
        lemma_last_position(name, '/');
        let s = last_segment(name);
        assert(trimmed(name) == name);
        assert(s.len() > 0 && s.last() == name.last());
        assert(is_file_name(s));
    }
}

/// A temporary file has a plain name, without a `/`, so that it lands in the temporary directory.
pub proof fn law_temp_names_are_plain(
    scope: Scope,
    config: ConfigView,
    n: nat,
    name: Seq<char>,
    is_dir: bool,
)
    ensures
        match plan(scope, config, n, name, is_dir) {
            ActionView::Flatten { temp_input, .. } => !temp_input.contains('/'),
            ActionView::Repack { temp_input, temp_output, .. } => !temp_input.contains('/')
                && !temp_output.contains('/'),
            _ => true,
        },
{
    if takes_temp(plan(scope, config, n, name, is_dir)) {
        lemma_archive_filename_is_plain(name);
        let filename = filename_of(name);
        lemma_stem_is_plain(filename);
        lemma_temp_name_is_plain(n, filename);
        lemma_temp_name_is_plain(n, stem_of_archive(filename));
        reveal_strlit(".zip");
        assert(!(temp_name(n, stem_of_archive(filename)) + ".zip"@).contains('/'));
    }
}

/// Every nested archive that goes to a temporary file can be read from there: the name of the file
/// stands for a format.
pub proof fn law_temp_input_is_readable(
    scope: Scope,
    config: ConfigView,
    n: nat,
    name: Seq<char>,
    is_dir: bool,
)
    ensures
        match plan(scope, config, n, name, is_dir) {
            ActionView::Flatten { temp_input, .. } => format_of(temp_input) is Some,
            ActionView::Repack { temp_input, .. } => format_of(temp_input) is Some,
            _ => true,
        },
{
    if takes_temp(plan(scope, config, n, name, is_dir)) {
        let filename = filename_of(name);
        let t = temp_name(n, filename);
        lemma_longer_archive_name(decimal(n) + "-"@, filename);
        lemma_decimal(n);
        assert(is_digit(decimal(n)[0]));
        assert(t[0] == decimal(n)[0]);
        assert(lower(t)[0] == lower_char(t[0]));
        reveal_strlit(".zip");
        reveal_strlit(".7z");
        reveal_strlit(".tar");
        reveal_strlit(".gz");
        reveal_strlit(".bz2");
        reveal_strlit(".xz");
        reveal_strlit(".rar");
        law_archive_is_readable(t);
    }
}

/// How many members of the input itself progress counts.
pub open spec fn progress_of(nested: NestedMode, config: ConfigView, ms: Seq<Member>) -> nat
    decreases ms.len(),
{
    if ms.len() == 0 {
        0
    } else {
        let action = plan(Scope::Top(nested), config, 1, ms.last().name, ms.last().is_dir);
        progress_of(nested, config, ms.drop_last()) + if counts(action) {
            1nat
        } else {
            0nat
        }
    }
}

/// How many manifests the input holds at its top level.
pub open spec fn manifest_count(ms: Seq<Member>) -> nat
    decreases ms.len(),
{
    if ms.len() == 0 {
        0
    } else {
        manifest_count(ms.drop_last()) + if !ms.last().is_dir && ms.last().name == MANIFEST_NAME@ {
            1nat
        } else {
            0nat
        }
    }
}

/// Progress reaches its total: of the members of the input, it counts the files, whether they are
/// left out or not, other than the manifest.
pub proof fn law_progress_counts_files(nested: NestedMode, config: ConfigView, ms: Seq<Member>)
    ensures
        progress_of(nested, config, ms) + manifest_count(ms) == file_count(
            ms.map_values(|m: Member| m.is_dir),
        ),
    decreases ms.len(),
{
    let dirs = ms.map_values(|m: Member| m.is_dir);
    if ms.len() > 0 {
        law_progress_counts_files(nested, config, ms.drop_last());
        assert(dirs.drop_last() =~= ms.drop_last().map_values(|m: Member| m.is_dir));
    }
}

proof fn lemma_temp_name_is_plain(n: nat, filename: Seq<char>)
    requires
        !filename.contains('/'),
    ensures
        !temp_name(n, filename).contains('/'),
{
    reveal_strlit("-");
    lemma_decimal(n);
    let t = temp_name(n, filename);
    let d = decimal(n);
    assert forall|i: int| 0 <= i < t.len() implies t[i] != '/' by {
        if i < d.len() {
            assert(t[i] == d[i]);
            assert(is_digit(d[i]));
        } else if i > d.len() {
            assert(t[i] == filename[i - d.len() - 1]);
        }
    }
}

/// Temporary files with different numbers have different names.
pub proof fn law_temp_names_differ(n: nat, k: nat, a: Seq<char>, b: Seq<char>)
    requires
        n != k,
    ensures
        temp_name(n, a) != temp_name(k, b),
{
    reveal_strlit("-");
    lemma_decimal(n);
    lemma_decimal(k);
    let x = decimal(n);
    let y = decimal(k);
    if temp_name(n, a) == temp_name(k, b) {
        let t = temp_name(n, a);
        assert(t[x.len() as int] == '-');
        assert(t[y.len() as int] == '-');
        if x.len() < y.len() {
            assert(temp_name(k, b)[x.len() as int] == y[x.len() as int]);
            assert(is_digit(y[x.len() as int]));
        } else if y.len() < x.len() {
            assert(t[y.len() as int] == x[y.len() as int]);
            assert(is_digit(x[y.len() as int]));
        } else {
            assert(t.take(x.len() as int) =~= x);
            assert(temp_name(k, b).take(y.len() as int) =~= y);
        }
    }
}

} // verus!
