//! The manifest that marks a ZIP as processed and tells what was done to it, run by run.

use crate::number::is_digit;
use crate::text::{begins_with, ends_with, is_white, lemma_trimmed_end, slice_option, texts, trim_end,
    trimmed_end};
use vstd::prelude::*;
use vstd::string::*;
use vstd::utf8::{decode_utf8, valid_utf8};

verus! {

/// The name of the manifest inside a ZIP.
pub const MANIFEST_NAME: &'static str = "archive-assistant.txt";

/// The version that the manifest gives.
pub const VERSION: &'static str = "0.1.0";

/// How the time of a run is written.
pub const TIME_FORMAT: &'static str = "%Y-%m-%dT%H:%M:%SZ";

/// `s` is a time as the manifest writes it: `-MM-DDThh:mm:ssZ` in digits after a year of at least
/// four digits, which bears a `+` if it has more than four.
pub open spec fn is_time_text(s: Seq<char>) -> bool {
    let n = s.len();
    &&& n >= 20
    &&& s[n - 16] == '-' && s[n - 13] == '-' && s[n - 10] == 'T' && s[n - 7] == ':' && s[n - 4]
        == ':' && s[n - 1] == 'Z'
    &&& forall|i: int|
        0 <= i < n && i != n - 16 && i != n - 13 && i != n - 10 && i != n - 7 && i != n - 4 && i != n
            - 1 && !(i == 0 && n > 20 && s[0] == '+') ==> is_digit(#[trigger] s[i])
}

/// The current time in UTC, from `chrono::Utc::now`, formatted by `chrono`'s `format` with
/// [`TIME_FORMAT`]. Nothing is said of the time itself; only the shape of its text is. The clock
/// is taken to be set to 1970 or later and within the range of `chrono`, which panics at any other
/// time.
#[verifier::external_body]
fn utc_now_text(format: &str) -> (res: String)
    requires
        format@ == TIME_FORMAT@,
    ensures
        is_time_text(res@),
{
    chrono::Utc::now().format(format).to_string()
}

/// The text that `String::from_utf8_lossy` makes of bytes.
pub uninterp spec fn lossy_text(bytes: Seq<u8>) -> Seq<char>;

/// Decodes bytes with `String::from_utf8_lossy`: what is not valid UTF-8 is replaced, and valid
/// UTF-8 is decoded as it stands.
#[verifier::external_body]
fn decode_lossy(bytes: &[u8]) -> (res: String)
    ensures
        res@ == lossy_text(bytes@),
        valid_utf8(bytes@) ==> res@ == decode_utf8(bytes@),
{
    String::from_utf8_lossy(bytes).into_owned()
}

/// The text of a manifest found in an archive: its bytes decoded as UTF-8, lossily where they are
/// not valid.
pub open spec fn manifest_read(bytes: Seq<u8>) -> Seq<char> {
    if valid_utf8(bytes) {
        decode_utf8(bytes)
    } else {
        lossy_text(bytes)
    }
}

/// The text of a manifest found in an archive.
pub fn manifest_from_bytes(bytes: &[u8]) -> (res: String)
    ensures
        res@ == manifest_read(bytes@),
{
    decode_lossy(bytes)
}

/// One line for each modified member.
pub open spec fn modified_lines(modified: Seq<Seq<char>>) -> Seq<char>
    decreases modified.len(),
{
    if modified.len() == 0 {
        Seq::empty()
    } else {
        modified_lines(modified.drop_last()) + "modified: "@ + modified.last() + "\n"@
    }
}

/// What the manifest says of one run.
pub open spec fn run_entry(modified: Seq<Seq<char>>, time: Seq<char>) -> Seq<char> {
    "archive-assistant v"@ + VERSION@ + "\n"@ + "processed: "@ + time + "\n"@ + modified_lines(modified)
}

/// The manifest after a run: the entry of the run, after those of earlier runs and a separator.
pub open spec fn manifest_of(prior: Option<Seq<char>>, modified: Seq<Seq<char>>, time: Seq<char>) -> Seq<char> {
    match prior {
        Some(p) => trimmed_end(p) + "\n"@ + "---\n"@ + run_entry(modified, time),
        None => run_entry(modified, time),
    }
}

/// The manifest of a ZIP rewritten in place, with the format it was converted from, if any.
pub open spec fn rewrite_manifest_of(
    modified: Seq<Seq<char>>,
    converted_from: Option<Seq<char>>,
    time: Seq<char>,
) -> Seq<char> {
    match converted_from {
        Some(f) => run_entry(modified, time) + "converted-from: "@ + f + "\n"@,
        None => run_entry(modified, time),
    }
}

fn append_entry(out: &mut String, modified: &[String], time: &str)
    ensures
        final(out)@ == old(out)@ + run_entry(texts(modified@), time@),
{
    let ghost before = out@;
    out.append("archive-assistant v");
    out.append(VERSION);
    out.append("\n");
    out.append("processed: ");
    out.append(time);
    out.append("\n");
    let ghost head = "archive-assistant v"@ + VERSION@ + "\n"@ + "processed: "@ + time@ + "\n"@;
    let ghost names = texts(modified@);
    assert(names.take(0) =~= Seq::empty());
    assert(out@ =~= before + (head + modified_lines(names.take(0))));
    for i in 0..modified.len()
        invariant
            names == texts(modified@),
            out@ == before + (head + modified_lines(names.take(i as int))),
    {
        let ghost so_far = modified_lines(names.take(i as int));
        out.append("modified: ");
        out.append(modified[i].as_str());
        out.append("\n");
        assert(names.take(i + 1).drop_last() =~= names.take(i as int));
        assert(names.take(i + 1).last() == modified@[i as int]@);
        assert(out@ =~= before + (head + (so_far + "modified: "@ + modified@[i as int]@ + "\n"@)));
    }
    assert(names.take(modified@.len() as int) =~= names);
}

/// The manifest after a run that took place at `time`.
pub fn manifest_text(prior: Option<&str>, modified: &[String], time: &str) -> (res: String)
    ensures
        res@ == manifest_of(slice_option(prior), texts(modified@), time@),
{
    let mut out = match prior {
        Some(p) => {
            let mut head = trim_end(p);
            head.append("\n");
            head.append("---\n");
            head
        },
        None => String::new(),
    };
    append_entry(&mut out, modified, time);
    assert(prior is None ==> out@ =~= run_entry(texts(modified@), time@));
    out
}

/// The manifest after a run that takes place now.
pub fn build_manifest(prior: Option<&str>, modified: &[String]) -> (res: String)
    ensures
        exists|time: Seq<char>|
            is_time_text(time) && res@ == #[trigger] manifest_of(
                slice_option(prior),
                texts(modified@),
                time,
            ),
{
    let time = utc_now_text(TIME_FORMAT);
    let res = manifest_text(prior, modified, time.as_str());
    assert(is_time_text(time@));
    res
}

/// The manifest of a ZIP rewritten in place at `time`.
pub fn rewrite_manifest_text(modified: &[String], converted_from: Option<&str>, time: &str) -> (res:
    String)
    ensures
        res@ == rewrite_manifest_of(texts(modified@), slice_option(converted_from), time@),
{
    let mut out = String::new();
    append_entry(&mut out, modified, time);
    assert(out@ =~= run_entry(texts(modified@), time@));
    if let Some(f) = converted_from {
        out.append("converted-from: ");
        out.append(f);
        out.append("\n");
    }
    out
}

/// The manifest of a ZIP rewritten in place now.
pub fn build_rewrite_manifest(modified: &[String], converted_from: Option<&str>) -> (res: String)
    ensures
        exists|time: Seq<char>|
            is_time_text(time) && res@ == #[trigger] rewrite_manifest_of(
                texts(modified@),
                slice_option(converted_from),
                time,
            ),
{
    let time = utc_now_text(TIME_FORMAT);
    let res = rewrite_manifest_text(modified, converted_from, time.as_str());
    assert(is_time_text(time@));
    res
}

/// What is recorded of one run.
pub struct RunRecord {
    pub modified: Seq<Seq<char>>,
    pub time: Seq<char>,
}

/// The manifest after several runs, one after the other.
pub open spec fn manifest_after(prior: Option<Seq<char>>, runs: Seq<RunRecord>) -> Option<Seq<char>>
    decreases runs.len(),
{
    if runs.len() == 0 {
        prior
    } else {
        Some(
            manifest_of(
                manifest_after(prior, runs.drop_last()),
                runs.last().modified,
                runs.last().time,
            ),
        )
    }
}

/// A run appends: the earlier manifest, but for white space at its end, still stands at the
/// beginning, and the entry of the run stands at the end, after the separator.
pub proof fn law_manifest_appends(prior: Seq<char>, modified: Seq<Seq<char>>, time: Seq<char>)
    ensures
        begins_with(manifest_of(Some(prior), modified, time), trimmed_end(prior)),
        ends_with(
            manifest_of(Some(prior), modified, time),
            "\n---\n"@ + run_entry(modified, time),
        ),
        manifest_of(Some(prior), modified, time).len() == trimmed_end(prior).len()
            + "\n---\n"@.len() + run_entry(modified, time).len(),
{
    reveal_strlit("\n");
    reveal_strlit("---\n");
    reveal_strlit("\n---\n");
    let m = manifest_of(Some(prior), modified, time);
    let entry = run_entry(modified, time);
    assert("\n"@ + "---\n"@ =~= "\n---\n"@);
    assert(m =~= trimmed_end(prior) + ("\n---\n"@ + entry));
    assert(m.take(trimmed_end(prior).len() as int) =~= trimmed_end(prior));
    assert(m.skip(trimmed_end(prior).len() as int) =~= "\n---\n"@ + entry);
}

/// A run never removes anything from the manifest but white space at its end: what the trimmed
/// manifest held before the run, it holds after it.
proof fn lemma_trimmed_manifest_grows(prior: Seq<char>, modified: Seq<Seq<char>>, time: Seq<char>)
    ensures
        begins_with(trimmed_end(manifest_of(Some(prior), modified, time)), trimmed_end(prior)),
{
    let m = manifest_of(Some(prior), modified, time);
    let k = trimmed_end(prior).len() as int;
    law_manifest_appends(prior, modified, time);
    reveal_strlit("\n---\n");
    lemma_trimmed_end(m);
    assert(m[k + 1] == m.skip(k)[1]);
    assert(m.skip(k)[1] == '-');
    assert(!is_white(m[k + 1]));
    assert(trimmed_end(m).take(k) =~= m.take(k));
}

/// History is kept: after any number of runs, the manifest of every earlier moment, but for white
/// space at its end, still stands at the beginning.
pub proof fn law_history_is_kept(prior: Option<Seq<char>>, runs: Seq<RunRecord>, k: int)
    requires
        0 <= k <= runs.len(),
        manifest_after(prior, runs.take(k)) is Some,
    ensures
        manifest_after(prior, runs) is Some,
        begins_with(
            manifest_after(prior, runs)->0,
            trimmed_end(manifest_after(prior, runs.take(k))->0),
        ),
        begins_with(
            trimmed_end(manifest_after(prior, runs)->0),
            trimmed_end(manifest_after(prior, runs.take(k))->0),
        ),
    decreases runs.len() - k,
{
    let early = manifest_after(prior, runs.take(k))->0;
    if k == runs.len() {
        assert(runs.take(k) =~= runs);
        lemma_trimmed_end(early);
        assert(trimmed_end(early).take(trimmed_end(early).len() as int) =~= trimmed_end(early));
    } else {
        let shorter = runs.drop_last();
        assert(shorter.take(k) =~= runs.take(k));
        law_history_is_kept(prior, shorter, k);
        let mid = manifest_after(prior, shorter)->0;
        let last = runs.last();
        let m = manifest_of(Some(mid), last.modified, last.time);
        assert(manifest_after(prior, runs) == Some(m));
        law_manifest_appends(mid, last.modified, last.time);
        lemma_trimmed_manifest_grows(mid, last.modified, last.time);
        let n = trimmed_end(early).len() as int;
        let t = trimmed_end(mid);
        assert(m.take(n) =~= m.take(t.len() as int).take(n));
        assert(trimmed_end(m).take(n) =~= trimmed_end(m).take(t.len() as int).take(n));
    }
}

/// Every run leaves its entry: the manifest after a run ends with it.
pub proof fn law_run_is_recorded(prior: Option<Seq<char>>, runs: Seq<RunRecord>)
    requires
        runs.len() > 0,
    ensures
        manifest_after(prior, runs) is Some,
        ends_with(
            manifest_after(prior, runs)->0,
            run_entry(runs.last().modified, runs.last().time),
        ),
{
    let before = manifest_after(prior, runs.drop_last());
    let m = manifest_of(before, runs.last().modified, runs.last().time);
    let entry = run_entry(runs.last().modified, runs.last().time);
    assert(m.skip(m.len() - entry.len()) =~= entry);
}

/// The entry of a run in which nothing changed gives the version and the time; every member that
/// changed adds one line with its name, after those before it.
pub proof fn law_entry_grows_by_a_line(modified: Seq<Seq<char>>, name: Seq<char>, time: Seq<char>)
    ensures
        run_entry(Seq::empty(), time) == "archive-assistant v0.1.0\nprocessed: "@ + time + "\n"@,
        run_entry(modified.push(name), time) == run_entry(modified, time) + "modified: "@ + name
            + "\n"@,
{
    reveal_strlit("archive-assistant v");
    reveal_strlit("0.1.0");
    reveal_strlit("\n");
    reveal_strlit("processed: ");
    reveal_strlit("archive-assistant v0.1.0\nprocessed: ");
    assert("archive-assistant v"@ + "0.1.0"@ + "\n"@ + "processed: "@
        =~= "archive-assistant v0.1.0\nprocessed: "@);
    let none = Seq::<Seq<char>>::empty();
    assert(modified_lines(none) =~= Seq::<char>::empty());
    assert(run_entry(none, time) =~= "archive-assistant v0.1.0\nprocessed: "@ + time + "\n"@);
    let more = modified.push(name);
    assert(more.drop_last() =~= modified);
    assert(more.last() == name);
    assert(run_entry(more, time) =~= run_entry(modified, time) + "modified: "@ + name + "\n"@);
}

/// The first manifest is the entry of its run. A ZIP rewritten in place always gets such a manifest,
/// with one line more where it was converted.
pub proof fn law_first_manifest_is_the_entry(
    modified: Seq<Seq<char>>,
    format: Seq<char>,
    time: Seq<char>,
)
    ensures
        manifest_of(None, modified, time) == run_entry(modified, time),
        rewrite_manifest_of(modified, None, time) == run_entry(modified, time),
        rewrite_manifest_of(modified, Some(format), time) == run_entry(modified, time)
            + "converted-from: "@ + format + "\n"@,
{
}

/// A manifest is read as it was written.
pub proof fn law_manifest_reads_as_written(text: Seq<char>)
    ensures
        manifest_read(vstd::utf8::encode_utf8(text)) == text,
{
    vstd::utf8::encode_utf8_valid_utf8(text);
    vstd::utf8::encode_utf8_decode_utf8(text);
}

} // verus!
