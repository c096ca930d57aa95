//! Archive names: which files are archives, how each is read, and what the ZIP made from one is
//! called.

use crate::manifest::MANIFEST_NAME;
use crate::path::{extension, extension_of, file_name, file_stem, is_file_name, joined,
    law_sibling_stays_in_its_directory, law_stem_and_extension, lemma_name_of_is_plain,
    lemma_name_of_joined, lemma_name_of_name, lemma_name_of_sibling, name_of, sibling, stem_of,
    with_file_name};
use crate::text::{ends_with, has_suffix, last_position, lemma_last_position,
    lemma_last_position_unique, lower, lower_char, same_text, strip_suffix, texts, to_lower};
use vstd::prelude::*;
use vstd::string::*;

verus! {

/// How an archive is read.
#[derive(Debug, Clone, Copy, PartialEq, Eq, Structural)]
pub enum ArchiveFormat {
    /// A tar archive inside gzip.
    TarGz,
    /// A tar archive inside bzip2.
    TarBz2,
    /// A tar archive inside xz.
    TarXz,
    Zip,
    SevenZ,
    Tar,
    /// One file compressed with gzip.
    Gz,
    /// One file compressed with bzip2.
    Bz2,
    /// One file compressed with xz.
    Xz,
    Rar,
}

/// Where the number of members can be read without going through the archive.
#[derive(Debug, Clone, Copy, PartialEq, Eq, Structural)]
pub enum CountSource {
    /// The central directory of a ZIP.
    ZipDirectory,
    /// The header block of a 7z archive.
    SevenZHeader,
}

/// The file name ends, in any case, with the extension of a supported archive format.
pub open spec fn names_archive(name: Seq<char>) -> bool {
    let n = lower(name);
    ||| ends_with(n, ".zip"@)
    ||| ends_with(n, ".7z"@)
    ||| ends_with(n, ".tar"@)
    ||| ends_with(n, ".tar.gz"@)
    ||| ends_with(n, ".tgz"@)
    ||| ends_with(n, ".tar.bz2"@)
    ||| ends_with(n, ".tbz2"@)
    ||| ends_with(n, ".tar.xz"@)
    ||| ends_with(n, ".txz"@)
    ||| ends_with(n, ".gz"@)
    ||| ends_with(n, ".bz2"@)
    ||| ends_with(n, ".xz"@)
    ||| ends_with(n, ".rar"@)
}

/// The file name of a path, or nothing where it has none.
pub open spec fn name_or_empty(p: Seq<char>) -> Seq<char> {
    match name_of(p) {
        Some(name) => name,
        None => Seq::empty(),
    }
}

/// The extension of the path is `zip`, in any case.
pub open spec fn names_zip(p: Seq<char>) -> bool {
    match extension_of(name_or_empty(p)) {
        Some(e) => lower(e) == "zip"@,
        None => false,
    }
}

/// `name` without its last `n` characters.
pub open spec fn without_last(name: Seq<char>, n: nat) -> Seq<char> {
    name.take(name.len() - n)
}

/// An archive's name without the suffix of its format: a compound tar suffix in lower case goes
/// as a whole, otherwise the extension goes.
pub open spec fn stem_of_archive(name: Seq<char>) -> Seq<char> {
    if ends_with(name, ".tar.gz"@) {
        without_last(name, ".tar.gz"@.len())
    } else if ends_with(name, ".tgz"@) {
        without_last(name, ".tgz"@.len())
    } else if ends_with(name, ".tar.bz2"@) {
        without_last(name, ".tar.bz2"@.len())
    } else if ends_with(name, ".tbz2"@) {
        without_last(name, ".tbz2"@.len())
    } else if ends_with(name, ".tar.xz"@) {
        without_last(name, ".tar.xz"@.len())
    } else if ends_with(name, ".txz"@) {
        without_last(name, ".txz"@.len())
    } else {
        match name_of(name) {
            Some(f) => stem_of(f),
            None => name,
        }
    }
}

/// What the ZIP made from the archive `name` is called.
pub open spec fn zip_name_of(name: Seq<char>) -> Seq<char> {
    stem_of_archive(name) + ".zip"@
}

/// The path of the ZIP made from the archive at `p`: in the same directory.
pub open spec fn zip_path_of(p: Seq<char>) -> Seq<char> {
    sibling(p, zip_name_of(name_or_empty(p)))
}

/// The format that an extension in lower case stands for.
pub open spec fn format_of_extension(e: Seq<char>) -> Option<ArchiveFormat> {
    if e == "zip"@ {
        Some(ArchiveFormat::Zip)
    } else if e == "7z"@ {
        Some(ArchiveFormat::SevenZ)
    } else if e == "tar"@ {
        Some(ArchiveFormat::Tar)
    } else if e == "gz"@ {
        Some(ArchiveFormat::Gz)
    } else if e == "bz2"@ {
        Some(ArchiveFormat::Bz2)
    } else if e == "xz"@ {
        Some(ArchiveFormat::Xz)
    } else if e == "rar"@ {
        Some(ArchiveFormat::Rar)
    } else {
        None
    }
}

/// How an archive of that file name is read, if its format is supported.
pub open spec fn format_of(name: Seq<char>) -> Option<ArchiveFormat> {
    let n = lower(name);
    if ends_with(n, ".tar.gz"@) || ends_with(n, ".tgz"@) {
        Some(ArchiveFormat::TarGz)
    } else if ends_with(n, ".tar.bz2"@) || ends_with(n, ".tbz2"@) {
        Some(ArchiveFormat::TarBz2)
    } else if ends_with(n, ".tar.xz"@) || ends_with(n, ".txz"@) {
        Some(ArchiveFormat::TarXz)
    } else {
        match extension_of(name) {
            Some(e) => format_of_extension(lower(e)),
            None => None,
        }
    }
}

/// Whether a file of that name is an archive in a supported format.
pub fn is_archive_name(name: &str) -> (res: bool)
    ensures
        res == names_archive(name@),
{
    let n = to_lower(name);
    let s = n.as_str();
    has_suffix(s, ".zip") || has_suffix(s, ".7z") || has_suffix(s, ".tar") || has_suffix(
        s,
        ".tar.gz",
    ) || has_suffix(s, ".tgz") || has_suffix(s, ".tar.bz2") || has_suffix(s, ".tbz2")
        || has_suffix(s, ".tar.xz") || has_suffix(s, ".txz") || has_suffix(s, ".gz") || has_suffix(
        s,
        ".bz2",
    ) || has_suffix(s, ".xz") || has_suffix(s, ".rar")
}

fn own_name(p: &str) -> (res: String)
    ensures
        res@ == name_or_empty(p@),
{
    match file_name(p) {
        Some(name) => name,
        None => String::new(),
    }
}

/// Whether the path is that of an archive in a supported format.
pub fn is_archive(path: &str) -> (res: bool)
    ensures
        res == names_archive(name_or_empty(path@)),
{
    is_archive_name(own_name(path).as_str())
}

/// Whether the path has a `.zip` extension, in any case.
pub fn is_zip(path: &str) -> (res: bool)
    ensures
        res == names_zip(path@),
{
    match extension(own_name(path).as_str()) {
        Some(e) => same_text(to_lower(e.as_str()).as_str(), "zip"),
        None => false,
    }
}

/// An archive's name without the suffix of its format.
pub fn archive_stem(name: &str) -> (res: String)
    ensures
        res@ == stem_of_archive(name@),
{
    if let Some(s) = strip_suffix(name, ".tar.gz") {
        return s;
    }
    if let Some(s) = strip_suffix(name, ".tgz") {
        return s;
    }
    if let Some(s) = strip_suffix(name, ".tar.bz2") {
        return s;
    }
    if let Some(s) = strip_suffix(name, ".tbz2") {
        return s;
    }
    if let Some(s) = strip_suffix(name, ".tar.xz") {
        return s;
    }
    if let Some(s) = strip_suffix(name, ".txz") {
        return s;
    }
    match file_name(name) {
        Some(f) => file_stem(f.as_str()),
        None => name.to_owned(),
    }
}

/// What the ZIP made from the archive `name` is called.
pub fn repack_output_name(name: &str) -> (res: String)
    ensures
        res@ == zip_name_of(name@),
{
    archive_stem(name).concat(".zip")
}

/// The path of the ZIP made from the archive at `path`: the same directory, the compound or
/// simple suffix replaced by `.zip`.
pub fn repack_output_path(path: &str) -> (res: String)
    ensures
        res@ == zip_path_of(path@),
{
    let name = repack_output_name(own_name(path).as_str());
    with_file_name(path, name.as_str())
}

/// A ZIP that stores entries of those names bears the manifest; what is no readable ZIP does not.
pub open spec fn bears_manifest(names: Option<Seq<Seq<char>>>) -> bool {
    names matches Some(n) && n.contains(MANIFEST_NAME@)
}

/// The names that a ZIP stores, if there is a ZIP that can be read.
pub open spec fn names_option(names: Option<&[String]>) -> Option<Seq<Seq<char>>> {
    match names {
        Some(n) => Some(texts(n@)),
        None => None,
    }
}

/// Whether a ZIP bears the manifest, which says that it has been processed, given the names of its
/// entries; `None` stands for what cannot be opened or is no ZIP.
pub fn zip_has_manifest(names: Option<&[String]>) -> (res: bool)
    ensures
        res == bears_manifest(names_option(names)),
{
    let list = match names {
        Some(list) => list,
        None => {
            return false;
        },
    };
    for i in 0..list.len()
        invariant
            names == Some(list),
            forall|j: int| 0 <= j < i ==> #[trigger] texts(list@)[j] != MANIFEST_NAME@,
    {
        if same_text(list[i].as_str(), MANIFEST_NAME) {
            assert(texts(list@)[i as int] == MANIFEST_NAME@);
            return true;
        }
    }
    false
}

/// How an archive of that file name is read; `None` where its format is not supported.
pub fn archive_format(name: &str) -> (res: Option<ArchiveFormat>)
    ensures
        res == format_of(name@),
{
    let n = to_lower(name);
    let s = n.as_str();
    if has_suffix(s, ".tar.gz") || has_suffix(s, ".tgz") {
        return Some(ArchiveFormat::TarGz);
    }
    if has_suffix(s, ".tar.bz2") || has_suffix(s, ".tbz2") {
        return Some(ArchiveFormat::TarBz2);
    }
    if has_suffix(s, ".tar.xz") || has_suffix(s, ".txz") {
        return Some(ArchiveFormat::TarXz);
    }
    match extension(name) {
        Some(e) => {
            let l = to_lower(e.as_str());
            let x = l.as_str();
            if same_text(x, "zip") {
                Some(ArchiveFormat::Zip)
            } else if same_text(x, "7z") {
                Some(ArchiveFormat::SevenZ)
            } else if same_text(x, "tar") {
                Some(ArchiveFormat::Tar)
            } else if same_text(x, "gz") {
                Some(ArchiveFormat::Gz)
            } else if same_text(x, "bz2") {
                Some(ArchiveFormat::Bz2)
            } else if same_text(x, "xz") {
                Some(ArchiveFormat::Xz)
            } else if same_text(x, "rar") {
                Some(ArchiveFormat::Rar)
            } else {
                None
            }
        },
        None => None,
    }
}

/// The name of the only member of a compressed single file: the file's name without its
/// extension, or `file` where the name is not valid text.
pub fn single_member_name(name: Option<&str>) -> (res: String)
    ensures
        res@ == match name {
            Some(n) => stem_of(n@),
            None => "file"@,
        },
{
    match name {
        Some(n) => file_stem(n),
        None => "file".to_owned(),
    }
}

/// Where the number of members can be read cheaply, if it can.
pub fn count_source(name: &str) -> (res: Option<CountSource>)
    ensures
        res == if ends_with(lower(name@), ".zip"@) {
            Some(CountSource::ZipDirectory)
        } else if ends_with(lower(name@), ".7z"@) {
            Some(CountSource::SevenZHeader)
        } else {
            None
        },
{
    let n = to_lower(name);
    if has_suffix(n.as_str(), ".zip") {
        Some(CountSource::ZipDirectory)
    } else if has_suffix(n.as_str(), ".7z") {
        Some(CountSource::SevenZHeader)
    } else {
        None
    }
}

/// How many of the members are files, given for each whether it is a directory.
pub open spec fn file_count(is_dir: Seq<bool>) -> nat
    decreases is_dir.len(),
{
    if is_dir.len() == 0 {
        0
    } else {
        file_count(is_dir.drop_last()) + if is_dir.last() {
            0nat
        } else {
            1nat
        }
    }
}

/// The number of members that progress counts: directories are not counted.
pub fn member_count(is_dir: &[bool]) -> (res: usize)
    ensures
        res == file_count(is_dir@),
{
    let mut count: usize = 0;
    assert(is_dir@.take(0) =~= Seq::<bool>::empty());
    for i in 0..is_dir.len()
        invariant
            count <= i,
            count == file_count(is_dir@.take(i as int)),
    {
        assert(is_dir@.take(i + 1).drop_last() =~= is_dir@.take(i as int));
        if !is_dir[i] {
            count = count + 1;
        }
    }
    assert(is_dir@.take(is_dir@.len() as int) =~= is_dir@);
    count
}

/// Where the extension of `name` is `e`, the name ends with a dot and `e`.
proof fn lemma_extension_is_suffix(name: Seq<char>, e: Seq<char>)
    requires
        extension_of(name) is Some,
        lower(extension_of(name)->0) == e,
    ensures
        ends_with(lower(name), seq!['.'] + e),
{
    let i = last_position(name, '.');
    lemma_last_position(name, '.');
    assert(lower(name).skip(i) =~= seq!['.'] + e);
}

/// A name that ends with a dot and a dotless `e`, after something else, has the extension `e`.
proof fn lemma_suffix_is_extension(name: Seq<char>, e: Seq<char>)
    requires
        ends_with(lower(name), seq!['.'] + e),
        !e.contains('.'),
        lower(name) != seq!['.'] + e,
    ensures
        extension_of(name) is Some,
        lower(extension_of(name)->0) == e,
{
    let at = name.len() - e.len() - 1;
    let tail = lower(name).skip(at);
    assert(tail == seq!['.'] + e);
    assert(tail[0] == lower_char(name[at]));
    assert forall|i: int| at < i < name.len() implies name[i] != '.' by {
        assert(tail[i - at] == lower_char(name[i]));
        assert(e[i - at - 1] == tail[i - at]);
        if name[i] == '.' {
            assert(e.contains('.'));
        }
    }
    lemma_last_position_unique(name, '.', at);
    if at == 0 {
        assert(lower(name).skip(0) =~= lower(name));
    }
    assert(lower(name.skip(at + 1)) =~= e) by {
        assert forall|j: int| 0 <= j < e.len() implies lower(name.skip(at + 1))[j] == e[j] by {
            assert(tail[j + 1] == e[j]);
        }
    }
}

/// Every suffix in question is a dot and an extension.
proof fn lemma_suffix_texts()
    ensures
        ".zip"@ == seq!['.'] + "zip"@,
        ".7z"@ == seq!['.'] + "7z"@,
        ".tar"@ == seq!['.'] + "tar"@,
        ".gz"@ == seq!['.'] + "gz"@,
        ".bz2"@ == seq!['.'] + "bz2"@,
        ".xz"@ == seq!['.'] + "xz"@,
        ".rar"@ == seq!['.'] + "rar"@,
        !"zip"@.contains('.'),
        !"7z"@.contains('.'),
        !"tar"@.contains('.'),
        !"gz"@.contains('.'),
        !"bz2"@.contains('.'),
        !"xz"@.contains('.'),
        !"rar"@.contains('.'),
{
    reveal_strlit(".zip");
    reveal_strlit(".7z");
    reveal_strlit(".tar");
    reveal_strlit(".gz");
    reveal_strlit(".bz2");
    reveal_strlit(".xz");
    reveal_strlit(".rar");
    reveal_strlit("zip");
    reveal_strlit("7z");
    reveal_strlit("tar");
    reveal_strlit("gz");
    reveal_strlit("bz2");
    reveal_strlit("xz");
    reveal_strlit("rar");
    assert(".zip"@ =~= seq!['.'] + "zip"@);
    assert(".7z"@ =~= seq!['.'] + "7z"@);
    assert(".tar"@ =~= seq!['.'] + "tar"@);
    assert(".gz"@ =~= seq!['.'] + "gz"@);
    assert(".bz2"@ =~= seq!['.'] + "bz2"@);
    assert(".xz"@ =~= seq!['.'] + "xz"@);
    assert(".rar"@ =~= seq!['.'] + "rar"@);
}

/// Whatever can be read as an archive is recognised as one.
pub proof fn law_readable_is_archive(name: Seq<char>)
    requires
        format_of(name) is Some,
    ensures
        names_archive(name),
{
    lemma_suffix_texts();
    let n = lower(name);
    if !(ends_with(n, ".tar.gz"@) || ends_with(n, ".tgz"@) || ends_with(n, ".tar.bz2"@)
        || ends_with(n, ".tbz2"@) || ends_with(n, ".tar.xz"@) || ends_with(n, ".txz"@)) {
        lemma_extension_is_suffix(name, lower(extension_of(name)->0));
    }
}

/// The name is nothing but the simple suffix of a format, so that it has no extension.
pub open spec fn is_bare_suffix(name: Seq<char>) -> bool {
    let n = lower(name);
    ||| n == ".zip"@
    ||| n == ".7z"@
    ||| n == ".tar"@
    ||| n == ".gz"@
    ||| n == ".bz2"@
    ||| n == ".xz"@
    ||| n == ".rar"@
}

/// Whatever is recognised as an archive can be read as one, unless the name is nothing but a
/// simple suffix.
pub proof fn law_archive_is_readable(name: Seq<char>)
    requires
        names_archive(name),
        !is_bare_suffix(name),
    ensures
        format_of(name) is Some,
{
    lemma_suffix_texts();
    let n = lower(name);
    if ends_with(n, ".zip"@) {
        lemma_suffix_is_extension(name, "zip"@);
    } else if ends_with(n, ".7z"@) {
        lemma_suffix_is_extension(name, "7z"@);
    } else if ends_with(n, ".tar"@) {
        lemma_suffix_is_extension(name, "tar"@);
    } else if ends_with(n, ".gz"@) {
        lemma_suffix_is_extension(name, "gz"@);
    } else if ends_with(n, ".bz2"@) {
        lemma_suffix_is_extension(name, "bz2"@);
    } else if ends_with(n, ".xz"@) {
        lemma_suffix_is_extension(name, "xz"@);
    } else if ends_with(n, ".rar"@) {
        lemma_suffix_is_extension(name, "rar"@);
    }
}

proof fn lemma_ends_with_longer(a: Seq<char>, b: Seq<char>, suffix: Seq<char>)
    requires
        ends_with(lower(b), suffix),
    ensures
        ends_with(lower(a + b), suffix),
{
    let ab = lower(a + b);
    assert(ab.skip(ab.len() - suffix.len()) =~= lower(b).skip(b.len() - suffix.len()));
}

/// Whatever is put before an archive name, the result is an archive name.
pub proof fn lemma_longer_archive_name(a: Seq<char>, b: Seq<char>)
    requires
        names_archive(b),
    ensures
        names_archive(a + b),
{
    let n = lower(b);
    if ends_with(n, ".zip"@) {
        lemma_ends_with_longer(a, b, ".zip"@);
    } else if ends_with(n, ".7z"@) {
        lemma_ends_with_longer(a, b, ".7z"@);
    } else if ends_with(n, ".tar"@) {
        lemma_ends_with_longer(a, b, ".tar"@);
    } else if ends_with(n, ".tar.gz"@) {
        lemma_ends_with_longer(a, b, ".tar.gz"@);
    } else if ends_with(n, ".tgz"@) {
        lemma_ends_with_longer(a, b, ".tgz"@);
    } else if ends_with(n, ".tar.bz2"@) {
        lemma_ends_with_longer(a, b, ".tar.bz2"@);
    } else if ends_with(n, ".tbz2"@) {
        lemma_ends_with_longer(a, b, ".tbz2"@);
    } else if ends_with(n, ".tar.xz"@) {
        lemma_ends_with_longer(a, b, ".tar.xz"@);
    } else if ends_with(n, ".txz"@) {
        lemma_ends_with_longer(a, b, ".txz"@);
    } else if ends_with(n, ".gz"@) {
        lemma_ends_with_longer(a, b, ".gz"@);
    } else if ends_with(n, ".bz2"@) {
        lemma_ends_with_longer(a, b, ".bz2"@);
    } else if ends_with(n, ".xz"@) {
        lemma_ends_with_longer(a, b, ".xz"@);
    } else if ends_with(n, ".rar"@) {
        lemma_ends_with_longer(a, b, ".rar"@);
    }
}

/// An archive name ends with a letter or a digit.
pub proof fn lemma_archive_name_end(name: Seq<char>)
    requires
        names_archive(name),
    ensures
        name.len() > 0,
        name.last() != '/',
        name.last() != '.',
        name.last() != 't',
{
    reveal_strlit(".zip");
    reveal_strlit(".7z");
    reveal_strlit(".tar");
    reveal_strlit(".tar.gz");
    reveal_strlit(".tgz");
    reveal_strlit(".tar.bz2");
    reveal_strlit(".tbz2");
    reveal_strlit(".tar.xz");
    reveal_strlit(".txz");
    reveal_strlit(".gz");
    reveal_strlit(".bz2");
    reveal_strlit(".xz");
    reveal_strlit(".rar");
    let n = lower(name);
    if ends_with(n, ".zip"@) {
        assert(n.skip(n.len() - 4)[3] == ".zip"@[3]);
    }
    if ends_with(n, ".7z"@) {
        assert(n.skip(n.len() - 3)[2] == ".7z"@[2]);
    }
    if ends_with(n, ".tar"@) {
        assert(n.skip(n.len() - 4)[3] == ".tar"@[3]);
    }
    if ends_with(n, ".tar.gz"@) {
        assert(n.skip(n.len() - 7)[6] == ".tar.gz"@[6]);
    }
    if ends_with(n, ".tgz"@) {
        assert(n.skip(n.len() - 4)[3] == ".tgz"@[3]);
    }
    if ends_with(n, ".tar.bz2"@) {
        assert(n.skip(n.len() - 8)[7] == ".tar.bz2"@[7]);
    }
    if ends_with(n, ".tbz2"@) {
        assert(n.skip(n.len() - 5)[4] == ".tbz2"@[4]);
    }
    if ends_with(n, ".tar.xz"@) {
        assert(n.skip(n.len() - 7)[6] == ".tar.xz"@[6]);
    }
    if ends_with(n, ".txz"@) {
        assert(n.skip(n.len() - 4)[3] == ".txz"@[3]);
    }
    if ends_with(n, ".gz"@) {
        assert(n.skip(n.len() - 3)[2] == ".gz"@[2]);
    }
    if ends_with(n, ".bz2"@) {
        assert(n.skip(n.len() - 4)[3] == ".bz2"@[3]);
    }
    if ends_with(n, ".xz"@) {
        assert(n.skip(n.len() - 3)[2] == ".xz"@[2]);
    }
    if ends_with(n, ".rar"@) {
        assert(n.skip(n.len() - 4)[3] == ".rar"@[3]);
    }
    assert(n.last() == lower_char(name.last()));
}

/// The stem of a file name holds no separator.
pub proof fn lemma_stem_is_plain(name: Seq<char>)
    requires
        !name.contains('/'),
    ensures
        !stem_of_archive(name).contains('/'),
{
    let s = stem_of_archive(name);
    if s.contains('/') {
        let i = choose|i: int| 0 <= i < s.len() && s[i] == '/';
        if name_of(name) is Some {
            let f = name_of(name)->0;
            lemma_name_of_is_plain(name);
            lemma_last_position(f, '.');
            if s == stem_of(f) {
                assert(f[i] == '/');
                assert(f.contains('/'));
            }
        }
        assert(name[i] == '/');
    }
}

/// A stem followed by `.zip` is a file name with the extension `zip`.
pub proof fn lemma_zip_name(stem: Seq<char>)
    requires
        stem.len() > 0,
        !stem.contains('/'),
    ensures
        is_file_name(stem + ".zip"@),
        !(stem + ".zip"@).contains('/'),
        extension_of(stem + ".zip"@) == Some("zip"@),
        stem_of(stem + ".zip"@) == stem,
{
    reveal_strlit(".zip");
    reveal_strlit("zip");
    let n = stem + ".zip"@;
    assert forall|i: int| 0 <= i < n.len() implies n[i] != '/' by {
        if i < stem.len() {
            assert(n[i] == stem[i]);
            if stem[i] == '/' {
                assert(stem.contains('/'));
            }
        } else {
            assert(n[i] == ".zip"@[i - stem.len()]);
        }
    }
    lemma_last_position_unique(n, '.', stem.len() as int);
    assert(n.skip(stem.len() as int + 1) =~= "zip"@);
    assert(n.take(stem.len() as int) =~= stem);
}

/// What repacking an archive produces is a ZIP by name, and so recognised as an archive again.
/// The one kind of name without this is a compound suffix with nothing before it.
pub proof fn law_repack_output_is_zip(p: Seq<char>)
    requires
        name_of(p) is Some,
        stem_of_archive(name_of(p)->0).len() > 0,
    ensures
        names_zip(zip_path_of(p)),
        names_archive(name_or_empty(zip_path_of(p))),
{
    let name = name_of(p)->0;
    lemma_name_of_is_plain(p);
    lemma_stem_is_plain(name);
    let stem = stem_of_archive(name);
    lemma_zip_name(stem);
    lemma_name_of_sibling(p, stem + ".zip"@);
    reveal_strlit("zip");
    assert(lower("zip"@) =~= "zip"@);
    lemma_suffix_texts();
    lemma_extension_is_suffix(stem + ".zip"@, "zip"@);
}

/// A ZIP named in lower case is repacked onto itself, whatever precedes its extension other than
/// a separator.
pub proof fn law_zip_is_repacked_in_place(stem: Seq<char>)
    requires
        stem.len() > 0,
        !stem.contains('/'),
    ensures
        zip_name_of(stem + ".zip"@) == stem + ".zip"@,
{
    let n = stem + ".zip"@;
    lemma_zip_name(stem);
    lemma_name_of_name(n);
    reveal_strlit(".zip");
    reveal_strlit(".tar.gz");
    reveal_strlit(".tgz");
    reveal_strlit(".tar.bz2");
    reveal_strlit(".tbz2");
    reveal_strlit(".tar.xz");
    reveal_strlit(".txz");
    let k = n.len();
    assert(n[k - 1] == 'p');
    assert(ends_with(n, ".tar.gz"@) ==> n.skip(k - 7)[6] == 'z');
    assert(ends_with(n, ".tgz"@) ==> n.skip(k - 4)[3] == 'z');
    assert(ends_with(n, ".tar.bz2"@) ==> n.skip(k - 8)[7] == '2');
    assert(ends_with(n, ".tbz2"@) ==> n.skip(k - 5)[4] == '2');
    assert(ends_with(n, ".tar.xz"@) ==> n.skip(k - 7)[6] == 'z');
    assert(ends_with(n, ".txz"@) ==> n.skip(k - 4)[3] == 'z');
}

/// One of the suffixes of archive names, in lower case.
pub open spec fn is_archive_suffix(s: Seq<char>) -> bool {
    ||| s == ".zip"@
    ||| s == ".7z"@
    ||| s == ".tar"@
    ||| s == ".tar.gz"@
    ||| s == ".tgz"@
    ||| s == ".tar.bz2"@
    ||| s == ".tbz2"@
    ||| s == ".tar.xz"@
    ||| s == ".txz"@
    ||| s == ".gz"@
    ||| s == ".bz2"@
    ||| s == ".xz"@
    ||| s == ".rar"@
}

/// A name is an archive's exactly if it ends with one of the suffixes, in any case, whatever
/// stands before it.
pub proof fn law_suffix_makes_an_archive(name: Seq<char>)
    ensures
        names_archive(name) <==> exists|stem: Seq<char>, suffix: Seq<char>|
            name == #[trigger] (stem + suffix) && is_archive_suffix(lower(suffix)),
{
    let n = lower(name);
    if names_archive(name) {
        let s = choose|s: Seq<char>| is_archive_suffix(s) && ends_with(n, s);
        assert(ends_with(n, ".zip"@) ==> is_archive_suffix(".zip"@));
        assert(ends_with(n, ".7z"@) ==> is_archive_suffix(".7z"@));
        assert(ends_with(n, ".tar"@) ==> is_archive_suffix(".tar"@));
        assert(ends_with(n, ".tar.gz"@) ==> is_archive_suffix(".tar.gz"@));
        assert(ends_with(n, ".tgz"@) ==> is_archive_suffix(".tgz"@));
        assert(ends_with(n, ".tar.bz2"@) ==> is_archive_suffix(".tar.bz2"@));
        assert(ends_with(n, ".tbz2"@) ==> is_archive_suffix(".tbz2"@));
        assert(ends_with(n, ".tar.xz"@) ==> is_archive_suffix(".tar.xz"@));
        assert(ends_with(n, ".txz"@) ==> is_archive_suffix(".txz"@));
        assert(ends_with(n, ".gz"@) ==> is_archive_suffix(".gz"@));
        assert(ends_with(n, ".bz2"@) ==> is_archive_suffix(".bz2"@));
        assert(ends_with(n, ".xz"@) ==> is_archive_suffix(".xz"@));
        assert(ends_with(n, ".rar"@) ==> is_archive_suffix(".rar"@));
        let k = name.len() - s.len();
        let suffix = name.skip(k);
        assert(lower(suffix) =~= n.skip(k));
        assert(name =~= name.take(k) + suffix);
    }
    if exists|stem: Seq<char>, suffix: Seq<char>|
        name == #[trigger] (stem + suffix) && is_archive_suffix(lower(suffix)) {
        let (stem, suffix) = choose|stem: Seq<char>, suffix: Seq<char>|
            name == #[trigger] (stem + suffix) && is_archive_suffix(lower(suffix));
        let s = lower(suffix);
        assert(n.skip(n.len() - s.len()) =~= s);
    }
}

/// The suffix of a name, in any case, decides how the archive is read. A simple suffix counts
/// after something else only, and the three that may follow `.tar` not after that.
pub proof fn law_suffix_decides_format(stem: Seq<char>, suffix: Seq<char>)
    ensures
        ({
            let format = format_of(stem + suffix);
            let s = lower(suffix);
            &&& s == ".tar.gz"@ || s == ".tgz"@ ==> format == Some(ArchiveFormat::TarGz)
            &&& s == ".tar.bz2"@ || s == ".tbz2"@ ==> format == Some(ArchiveFormat::TarBz2)
            &&& s == ".tar.xz"@ || s == ".txz"@ ==> format == Some(ArchiveFormat::TarXz)
            &&& stem.len() > 0 ==> {
                &&& s == ".zip"@ ==> format == Some(ArchiveFormat::Zip)
                &&& s == ".7z"@ ==> format == Some(ArchiveFormat::SevenZ)
                &&& s == ".tar"@ ==> format == Some(ArchiveFormat::Tar)
                &&& s == ".rar"@ ==> format == Some(ArchiveFormat::Rar)
            }
            &&& stem.len() > 0 && !ends_with(lower(stem), ".tar"@) ==> {
                &&& s == ".gz"@ ==> format == Some(ArchiveFormat::Gz)
                &&& s == ".bz2"@ ==> format == Some(ArchiveFormat::Bz2)
                &&& s == ".xz"@ ==> format == Some(ArchiveFormat::Xz)
            }
        }),
{
    lemma_suffix_texts();
    reveal_strlit(".zip");
    reveal_strlit(".7z");
    reveal_strlit(".tar");
    reveal_strlit(".tar.gz");
    reveal_strlit(".tgz");
    reveal_strlit(".tar.bz2");
    reveal_strlit(".tbz2");
    reveal_strlit(".tar.xz");
    reveal_strlit(".txz");
    reveal_strlit(".gz");
    reveal_strlit(".bz2");
    reveal_strlit(".xz");
    reveal_strlit(".rar");
    let name = stem + suffix;
    let n = lower(name);
    let s = lower(suffix);
    let k = n.len() as int;
    assert(n =~= lower(stem) + s);
    if is_archive_suffix(s) {
        assert(".zip"@.len() == 4 && ".zip"@[2] == 'i' && ".zip"@[1] == 'z');
        assert(".7z"@.len() == 3 && ".7z"@[1] == '7' && ".7z"@[1] == '7');
        assert(".tar"@.len() == 4 && ".tar"@[2] == 'a' && ".tar"@[1] == 't');
        assert(".tar.gz"@.len() == 7 && ".tar.gz"@[5] == 'g' && ".tar.gz"@[1] == 't');
        assert(".tgz"@.len() == 4 && ".tgz"@[2] == 'g' && ".tgz"@[1] == 't');
        assert(".tar.bz2"@.len() == 8 && ".tar.bz2"@[6] == 'z' && ".tar.bz2"@[1] == 't');
        assert(".tbz2"@.len() == 5 && ".tbz2"@[3] == 'z' && ".tbz2"@[1] == 't');
        assert(".tar.xz"@.len() == 7 && ".tar.xz"@[5] == 'x' && ".tar.xz"@[1] == 't');
        assert(".txz"@.len() == 4 && ".txz"@[2] == 'x' && ".txz"@[1] == 't');
        assert(".gz"@.len() == 3 && ".gz"@[1] == 'g' && ".gz"@[1] == 'g');
        assert(".bz2"@.len() == 4 && ".bz2"@[2] == 'z' && ".bz2"@[1] == 'b');
        assert(".xz"@.len() == 3 && ".xz"@[1] == 'x' && ".xz"@[1] == 'x');
        assert(".rar"@.len() == 4 && ".rar"@[2] == 'a' && ".rar"@[1] == 'r');
        assert(n.skip(k - s.len()) =~= s);
        lemma_last_characters(n, s);
        if stem.len() > 0 {
            assert(n.len() > s.len());
            if s == ".zip"@ {
                lemma_suffix_is_extension(name, "zip"@);
            } else if s == ".7z"@ {
                lemma_suffix_is_extension(name, "7z"@);
            } else if s == ".tar"@ {
                lemma_suffix_is_extension(name, "tar"@);
            } else if s == ".rar"@ {
                lemma_suffix_is_extension(name, "rar"@);
            } else if s == ".gz"@ {
                lemma_suffix_is_extension(name, "gz"@);
                if !ends_with(lower(stem), ".tar"@) {
                    assert(".tar.gz"@ =~= ".tar"@ + ".gz"@);
                    lemma_not_compound(lower(stem), s, ".tar.gz"@);
                }
            } else if s == ".bz2"@ {
                lemma_suffix_is_extension(name, "bz2"@);
                if !ends_with(lower(stem), ".tar"@) {
                    assert(".tar.bz2"@ =~= ".tar"@ + ".bz2"@);
                    lemma_not_compound(lower(stem), s, ".tar.bz2"@);
                }
            } else if s == ".xz"@ {
                lemma_suffix_is_extension(name, "xz"@);
                if !ends_with(lower(stem), ".tar"@) {
                    assert(".tar.xz"@ =~= ".tar"@ + ".xz"@);
                    lemma_not_compound(lower(stem), s, ".tar.xz"@);
                }
            }
        }
        lemma_extension_texts_differ();
    }
}

proof fn lemma_extension_texts_differ()
    ensures
        "zip"@ != "7z"@ && "zip"@ != "tar"@ && "zip"@ != "gz"@ && "zip"@ != "bz2"@ && "zip"@ != "xz"@
            && "zip"@ != "rar"@,
        "7z"@ != "tar"@ && "7z"@ != "gz"@ && "7z"@ != "bz2"@ && "7z"@ != "xz"@ && "7z"@ != "rar"@,
        "tar"@ != "gz"@ && "tar"@ != "bz2"@ && "tar"@ != "xz"@ && "tar"@ != "rar"@,
        "gz"@ != "bz2"@ && "gz"@ != "xz"@ && "gz"@ != "rar"@,
        "bz2"@ != "xz"@ && "bz2"@ != "rar"@,
        "xz"@ != "rar"@,
{
    reveal_strlit("zip");
    reveal_strlit("7z");
    reveal_strlit("tar");
    reveal_strlit("gz");
    reveal_strlit("bz2");
    reveal_strlit("xz");
    reveal_strlit("rar");
    assert("zip"@[0] == 'z' && "7z"@[0] == '7' && "tar"@[0] == 't' && "gz"@[0] == 'g' && "bz2"@[0]
        == 'b' && "xz"@[0] == 'x' && "rar"@[0] == 'r');
}

proof fn lemma_not_compound(stem: Seq<char>, s: Seq<char>, compound: Seq<char>)
    requires
        compound == ".tar"@ + s,
        !ends_with(stem, ".tar"@),
    ensures
        !ends_with(stem + s, compound),
{
    let n = stem + s;
    if ends_with(n, compound) {
        reveal_strlit(".tar");
        let tail = n.skip(n.len() - compound.len());
        assert(stem.skip(stem.len() - 4) =~= tail.take(4));
        assert(compound.take(4) =~= ".tar"@);
    }
}

/// Which suffixes a text that ends with a simple one cannot end with.
proof fn lemma_last_characters(n: Seq<char>, s: Seq<char>)
    requires
        is_archive_suffix(s),
        ends_with(n, s),
    ensures
        ends_with(n, ".tar.gz"@) || ends_with(n, ".tgz"@) ==> s == ".tar.gz"@ || s == ".tgz"@ || s
            == ".gz"@,
        ends_with(n, ".tar.bz2"@) || ends_with(n, ".tbz2"@) ==> s == ".tar.bz2"@ || s == ".tbz2"@ || s
            == ".bz2"@,
        ends_with(n, ".tar.xz"@) || ends_with(n, ".txz"@) ==> s == ".tar.xz"@ || s == ".txz"@ || s
            == ".xz"@,
        s == ".gz"@ ==> !ends_with(n, ".tgz"@),
        s == ".bz2"@ ==> !ends_with(n, ".tbz2"@),
        s == ".xz"@ ==> !ends_with(n, ".txz"@),
{
    reveal_strlit(".zip");
    reveal_strlit(".7z");
    reveal_strlit(".tar");
    reveal_strlit(".tar.gz");
    reveal_strlit(".tgz");
    reveal_strlit(".tar.bz2");
    reveal_strlit(".tbz2");
    reveal_strlit(".tar.xz");
    reveal_strlit(".txz");
    reveal_strlit(".gz");
    reveal_strlit(".bz2");
    reveal_strlit(".xz");
    reveal_strlit(".rar");
    lemma_at_end(n, s);
    if ends_with(n, ".tar.gz"@) {
        lemma_at_end(n, ".tar.gz"@);
    }
    if ends_with(n, ".tgz"@) {
        lemma_at_end(n, ".tgz"@);
    }
    if ends_with(n, ".tar.bz2"@) {
        lemma_at_end(n, ".tar.bz2"@);
    }
    if ends_with(n, ".tbz2"@) {
        lemma_at_end(n, ".tbz2"@);
    }
    if ends_with(n, ".tar.xz"@) {
        lemma_at_end(n, ".tar.xz"@);
    }
    if ends_with(n, ".txz"@) {
        lemma_at_end(n, ".txz"@);
    }
}

proof fn lemma_at_end(n: Seq<char>, s: Seq<char>)
    requires
        ends_with(n, s),
        s.len() >= 3,
    ensures
        n.len() >= s.len(),
        n[n.len() - 1] == s[s.len() - 1],
        n[n.len() - 2] == s[s.len() - 2],
        n[n.len() - 3] == s[s.len() - 3],
        s.len() >= 4 ==> n[n.len() - 4] == s[s.len() - 4],
{
    let tail = n.skip(n.len() - s.len());
    assert(tail[s.len() - 1] == n[n.len() - 1]);
    assert(tail[s.len() - 2] == n[n.len() - 2]);
    assert(tail[s.len() - 3] == n[n.len() - 3]);
    if s.len() >= 4 {
        assert(tail[s.len() - 4] == n[n.len() - 4]);
    }
}

/// The stem of an archive's name is what stands before its suffix: before a compound suffix in
/// lower case as a whole, and otherwise before the last dot.
pub proof fn law_stem_precedes_suffix(stem: Seq<char>, extension: Seq<char>)
    ensures
        stem_of_archive(stem + ".tar.gz"@) == stem,
        stem_of_archive(stem + ".tgz"@) == stem,
        stem_of_archive(stem + ".tar.bz2"@) == stem,
        stem_of_archive(stem + ".tbz2"@) == stem,
        stem_of_archive(stem + ".tar.xz"@) == stem,
        stem_of_archive(stem + ".txz"@) == stem,
        ({
            let name = stem + seq!['.'] + extension;
            stem.len() > 0 && extension.len() > 0 && !stem.contains('/') && !extension.contains('/')
                && !extension.contains('.') && !ends_with(name, ".tar.gz"@) && !ends_with(
                name,
                ".tgz"@,
            ) && !ends_with(name, ".tar.bz2"@) && !ends_with(name, ".tbz2"@) && !ends_with(
                name,
                ".tar.xz"@,
            ) && !ends_with(name, ".txz"@) ==> stem_of_archive(name) == stem
        }),
{
    reveal_strlit(".zip");
    reveal_strlit(".7z");
    reveal_strlit(".tar");
    reveal_strlit(".tar.gz");
    reveal_strlit(".tgz");
    reveal_strlit(".tar.bz2");
    reveal_strlit(".tbz2");
    reveal_strlit(".tar.xz");
    reveal_strlit(".txz");
    reveal_strlit(".gz");
    reveal_strlit(".bz2");
    reveal_strlit(".xz");
    reveal_strlit(".rar");
    let n_tar_gz = stem + ".tar.gz"@;
    assert(n_tar_gz.skip(n_tar_gz.len() - ".tar.gz"@.len()) =~= ".tar.gz"@);
    assert(n_tar_gz.take(n_tar_gz.len() - ".tar.gz"@.len()) =~= stem);
    lemma_last_characters(n_tar_gz, ".tar.gz"@);
    lemma_at_end(n_tar_gz, ".tar.gz"@);
    let n_tgz = stem + ".tgz"@;
    assert(n_tgz.skip(n_tgz.len() - ".tgz"@.len()) =~= ".tgz"@);
    assert(n_tgz.take(n_tgz.len() - ".tgz"@.len()) =~= stem);
    lemma_last_characters(n_tgz, ".tgz"@);
    lemma_at_end(n_tgz, ".tgz"@);
    if ends_with(n_tgz, ".tar.gz"@) {
        lemma_at_end(n_tgz, ".tar.gz"@);
    }
    let n_tar_bz2 = stem + ".tar.bz2"@;
    assert(n_tar_bz2.skip(n_tar_bz2.len() - ".tar.bz2"@.len()) =~= ".tar.bz2"@);
    assert(n_tar_bz2.take(n_tar_bz2.len() - ".tar.bz2"@.len()) =~= stem);
    lemma_last_characters(n_tar_bz2, ".tar.bz2"@);
    lemma_at_end(n_tar_bz2, ".tar.bz2"@);
    let n_tbz2 = stem + ".tbz2"@;
    assert(n_tbz2.skip(n_tbz2.len() - ".tbz2"@.len()) =~= ".tbz2"@);
    assert(n_tbz2.take(n_tbz2.len() - ".tbz2"@.len()) =~= stem);
    lemma_last_characters(n_tbz2, ".tbz2"@);
    lemma_at_end(n_tbz2, ".tbz2"@);
    if ends_with(n_tbz2, ".tar.bz2"@) {
        lemma_at_end(n_tbz2, ".tar.bz2"@);
    }
    let n_tar_xz = stem + ".tar.xz"@;
    assert(n_tar_xz.skip(n_tar_xz.len() - ".tar.xz"@.len()) =~= ".tar.xz"@);
    assert(n_tar_xz.take(n_tar_xz.len() - ".tar.xz"@.len()) =~= stem);
    lemma_last_characters(n_tar_xz, ".tar.xz"@);
    lemma_at_end(n_tar_xz, ".tar.xz"@);
    let n_txz = stem + ".txz"@;
    assert(n_txz.skip(n_txz.len() - ".txz"@.len()) =~= ".txz"@);
    assert(n_txz.take(n_txz.len() - ".txz"@.len()) =~= stem);
    lemma_last_characters(n_txz, ".txz"@);
    lemma_at_end(n_txz, ".txz"@);
    if ends_with(n_txz, ".tar.xz"@) {
        lemma_at_end(n_txz, ".tar.xz"@);
    }
    let name = stem + seq!['.'] + extension;
    if stem.len() > 0 && extension.len() > 0 && !stem.contains('/') && !extension.contains('/')
        && !extension.contains('.') {
        let at = stem.len() as int;
        assert forall|i: int| 0 <= i < name.len() implies name[i] != '/' by {
            if i < at {
                assert(name[i] == stem[i]);
            } else if i > at {
                assert(name[i] == extension[i - at - 1]);
            }
        }
        assert forall|i: int| at < i < name.len() implies name[i] != '.' by {
            assert(name[i] == extension[i - at - 1]);
        }
        lemma_last_position_unique(name, '.', at);
        assert(name.take(at) =~= stem);
        lemma_name_of_name(name);
    }
}

/// The ZIP made from an archive stands beside it: in its directory, under its stem and `.zip`.
pub proof fn law_zip_stands_beside_archive(dir: Seq<char>, name: Seq<char>)
    requires
        is_file_name(name),
        !name.contains('/'),
        dir.len() > 0,
        dir.last() != '/',
        !(dir.len() > 1 && dir.last() == '.' && dir[dir.len() - 2] == '/'),
    ensures
        zip_path_of(dir + seq!['/'] + name) == dir + seq!['/'] + stem_of_archive(name) + ".zip"@,
        zip_path_of(seq!['/'] + name) == seq!['/'] + stem_of_archive(name) + ".zip"@,
        zip_path_of(name) == stem_of_archive(name) + ".zip"@,
{
    reveal_strlit(".zip");
    let base = dir + seq!['/'];
    let zip = stem_of_archive(name) + ".zip"@;
    lemma_stem_is_plain(name);
    assert forall|i: int| 0 <= i < zip.len() implies zip[i] != '/' by {
        if i < stem_of_archive(name).len() {
            assert(zip[i] == stem_of_archive(name)[i]);
        }
    }
    if name[0] == '/' {
        assert(name.contains('/'));
    }
    assert(joined(base, name) == base + name);
    lemma_name_of_joined(base, name);
    lemma_name_of_name(name);
    law_sibling_stays_in_its_directory(dir, name, zip);
    assert(base + zip =~= dir + seq!['/'] + stem_of_archive(name) + ".zip"@);
    let root = seq!['/'];
    assert(joined(root, name) == root + name);
    lemma_name_of_joined(root, name);
    assert(root + zip =~= root + stem_of_archive(name) + ".zip"@);
}

/// A path is a ZIP's exactly if its file name is a text that is not empty and `.zip`, in any case.
pub proof fn law_zip_by_extension(path: Seq<char>)
    ensures
        names_zip(path) <==> exists|stem: Seq<char>, suffix: Seq<char>|
            name_of(path) == Some(#[trigger] (stem + suffix)) && stem.len() > 0 && lower(suffix)
                == ".zip"@,
{
    lemma_suffix_texts();
    reveal_strlit(".zip");
    reveal_strlit("zip");
    let name = name_or_empty(path);
    law_stem_and_extension(name);
    if names_zip(path) {
        let e = extension_of(name)->0;
        let suffix = seq!['.'] + e;
        assert(name =~= stem_of(name) + suffix);
        assert(lower(suffix) =~= seq!['.'] + lower(e));
        assert(name_of(path) is Some);
    }
    if exists|stem: Seq<char>, suffix: Seq<char>|
        name_of(path) == Some(#[trigger] (stem + suffix)) && stem.len() > 0 && lower(suffix) == ".zip"@ {
        let (stem, suffix) = choose|stem: Seq<char>, suffix: Seq<char>|
            name_of(path) == Some(#[trigger] (stem + suffix)) && stem.len() > 0 && lower(suffix)
                == ".zip"@;
        assert(lower(name) =~= lower(stem) + ".zip"@);
        assert(lower(name).skip(lower(name).len() - 4) =~= ".zip"@);
        assert(lower(name).len() > 4);
        lemma_suffix_is_extension(name, "zip"@);
    }
}

/// Members are counted one by one, and a directory counts for nothing.
pub proof fn law_files_are_counted(first: Seq<bool>, second: Seq<bool>)
    ensures
        file_count(first + second) == file_count(first) + file_count(second),
        file_count(seq![false]) == 1,
        file_count(seq![true]) == 0,
    decreases second.len(),
{
    let one = seq![false];
    let dir = seq![true];
    assert(one.drop_last() =~= Seq::<bool>::empty());
    assert(dir.drop_last() =~= Seq::<bool>::empty());
    assert(file_count(Seq::<bool>::empty()) == 0);
    let both = first + second;
    if second.len() == 0 {
        assert(both =~= first);
    } else {
        assert(both.drop_last() =~= first + second.drop_last());
        law_files_are_counted(first, second.drop_last());
    }
}

/// A ZIP bears the manifest exactly if it stores an entry of its name at the top level.
pub proof fn law_manifest_is_an_entry(names: Seq<Seq<char>>, i: int)
    ensures
        bears_manifest(None) == false,
        0 <= i < names.len() && names[i] == "archive-assistant.txt"@ ==> bears_manifest(Some(names)),
        bears_manifest(Some(names)) ==> exists|k: int|
            0 <= k < names.len() && #[trigger] names[k] == "archive-assistant.txt"@,
{
}

/// A name without an extension is its own stem, unless it is a short tar suffix and nothing else; a
/// dot at the end is left out.
pub proof fn law_stem_without_extension(name: Seq<char>)
    requires
        is_file_name(name),
        !name.contains('/'),
        forall|i: int| 0 < i < name.len() ==> name[i] != '.',
        name != ".tgz"@,
        name != ".tbz2"@,
        name != ".txz"@,
    ensures
        stem_of_archive(name) == name,
        stem_of_archive(name + seq!['.']) == name,
{
    reveal_strlit(".tar.gz");
    reveal_strlit(".tgz");
    reveal_strlit(".tar.bz2");
    reveal_strlit(".tbz2");
    reveal_strlit(".tar.xz");
    reveal_strlit(".txz");
    lemma_last_position(name, '.');
    lemma_name_of_name(name);
    lemma_no_dot_inside(name, ".tar.gz"@);
    lemma_no_dot_inside(name, ".tgz"@);
    lemma_no_dot_inside(name, ".tar.bz2"@);
    lemma_no_dot_inside(name, ".tbz2"@);
    lemma_no_dot_inside(name, ".tar.xz"@);
    lemma_no_dot_inside(name, ".txz"@);
    assert(".tar.gz"@[4] == '.' && ".tar.bz2"@[4] == '.' && ".tar.xz"@[4] == '.');
    let dotted = name + seq!['.'];
    assert(dotted.last() == '.');
    assert(!dotted.contains('/')) by {
        assert forall|i: int| 0 <= i < dotted.len() implies dotted[i] != '/' by {
            if i < name.len() {
                assert(dotted[i] == name[i]);
            }
        }
    }
    lemma_name_of_name(dotted);
    lemma_last_position_unique(dotted, '.', name.len() as int);
    assert(dotted.take(name.len() as int) =~= name);
    lemma_ends_with_last(dotted, ".tar.gz"@);
    lemma_ends_with_last(dotted, ".tgz"@);
    lemma_ends_with_last(dotted, ".tar.bz2"@);
    lemma_ends_with_last(dotted, ".tbz2"@);
    lemma_ends_with_last(dotted, ".tar.xz"@);
    lemma_ends_with_last(dotted, ".txz"@);
}

proof fn lemma_no_dot_inside(name: Seq<char>, suffix: Seq<char>)
    requires
        forall|i: int| 0 < i < name.len() ==> name[i] != '.',
        suffix.len() > 0,
        suffix[0] == '.',
    ensures
        ends_with(name, suffix) ==> name == suffix,
{
    if ends_with(name, suffix) {
        let at = name.len() - suffix.len();
        assert(name.skip(at)[0] == name[at]);
        assert(name.skip(0) =~= name);
    }
}

proof fn lemma_ends_with_last(name: Seq<char>, suffix: Seq<char>)
    requires
        suffix.len() > 0,
    ensures
        ends_with(name, suffix) ==> name.last() == suffix.last(),
{
    if ends_with(name, suffix) {
        assert(name.skip(name.len() - suffix.len()).last() == name.last());
    }
}

} // verus!
