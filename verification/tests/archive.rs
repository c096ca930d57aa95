//! Names of archives, and what is read from them.

use archive_assistant::archive::{
    archive_format, archive_stem, count_source, is_archive, is_archive_name, is_zip, member_count,
    repack_output_name, repack_output_path, single_member_name, zip_has_manifest, ArchiveFormat,
    CountSource,
};

const SUFFIXES: [&str; 13] = [
    ".zip", ".7z", ".tar", ".tar.gz", ".tgz", ".tar.bz2", ".tbz2", ".tar.xz", ".txz", ".gz", ".bz2",
    ".xz", ".rar",
];

#[test]
fn archives_by_name() {
    for suffix in SUFFIXES {
        assert!(is_archive_name(&format!("a{}", suffix)));
        assert!(is_archive(&format!("/d.x/A{}", suffix.to_uppercase())));
        assert!(is_archive(&format!("d/a{}/", suffix)));
        assert!(!is_archive(&format!("d{}/a.txt", suffix)));
    }
    for other in ["", "zip", "a.zipx", "a.txt", "a.", "a.tar.lz"] {
        assert!(!is_archive_name(other));
        assert!(!is_archive(other));
    }
    assert!(!is_archive(".."));
}

#[test]
fn zips_by_extension() {
    assert!(is_zip("a.zip") && is_zip("/d/a.b.ZiP") && is_zip("a.zip/"));
    assert!(!is_zip("a.7z") && !is_zip("zip") && !is_zip(".zip") && !is_zip("a.zip.gz"));
}

#[test]
fn stems() {
    assert_eq!(archive_stem("a.tar.gz"), "a");
    assert_eq!(archive_stem("a.b.tgz"), "a.b");
    assert_eq!(archive_stem("a.tar.bz2"), "a");
    assert_eq!(archive_stem("a.tbz2"), "a");
    assert_eq!(archive_stem("a.tar.xz"), "a");
    assert_eq!(archive_stem("a.txz"), "a");
    assert_eq!(archive_stem("a.TAR.GZ"), "a.TAR");
    assert_eq!(archive_stem("a.b.rar"), "a.b");
    assert_eq!(archive_stem(".zip"), ".zip");
    assert_eq!(archive_stem(".tar.gz"), "");
    assert_eq!(archive_stem("plain"), "plain");
    assert_eq!(archive_stem(".."), "..");
}

#[test]
fn outputs_beside_the_input() {
    assert_eq!(repack_output_name("a.tar.xz"), "a.zip");
    assert_eq!(repack_output_path("/x/a.7z"), "/x/a.zip");
    assert_eq!(repack_output_path("x/a.zip"), "x/a.zip");
    assert_eq!(repack_output_path("a.tar.gz"), "a.zip");
}

#[test]
fn formats_by_name() {
    let cases = [
        ("a.tar.gz", ArchiveFormat::TarGz),
        ("a.TGZ", ArchiveFormat::TarGz),
        ("a.tar.bz2", ArchiveFormat::TarBz2),
        ("a.tbz2", ArchiveFormat::TarBz2),
        ("a.tar.xz", ArchiveFormat::TarXz),
        ("a.txz", ArchiveFormat::TarXz),
        ("a.zip", ArchiveFormat::Zip),
        ("a.7Z", ArchiveFormat::SevenZ),
        ("a.tar", ArchiveFormat::Tar),
        ("a.gz", ArchiveFormat::Gz),
        ("a.bz2", ArchiveFormat::Bz2),
        ("a.xz", ArchiveFormat::Xz),
        ("a.rar", ArchiveFormat::Rar),
    ];
    for (name, format) in cases {
        assert_eq!(archive_format(name), Some(format), "{}", name);
    }
    for name in ["a.txt", "zip", ".zip", "", "a.tar.lz"] {
        assert_eq!(archive_format(name), None, "{}", name);
    }
}

#[test]
fn every_supported_format_is_an_archive() {
    for suffix in SUFFIXES {
        let name = format!("a{}", suffix);
        assert!(archive_format(&name).is_some() && is_archive_name(&name));
    }
}

#[test]
fn single_members() {
    assert_eq!(single_member_name(Some("a.txt.gz")), "a.txt");
    assert_eq!(single_member_name(Some("1-notes.xz")), "1-notes");
    assert_eq!(single_member_name(None), "file");
}

#[test]
fn counting_members() {
    assert_eq!(count_source("a.ZIP"), Some(CountSource::ZipDirectory));
    assert_eq!(count_source("a.7z"), Some(CountSource::SevenZHeader));
    assert_eq!(count_source("a.tar"), None);
    assert_eq!(count_source("a.rar"), None);
    assert_eq!(member_count(&[false, true, false, true, false]), 3);
    assert_eq!(member_count(&[]), 0);
}

#[test]
fn manifests_in_zips() {
    let names = |list: &[&str]| -> Vec<String> { list.iter().map(|n| n.to_string()).collect() };
    assert!(zip_has_manifest(Some(&names(&["a", "archive-assistant.txt"]))));
    assert!(!zip_has_manifest(Some(&names(&["sub/archive-assistant.txt"]))));
    assert!(!zip_has_manifest(Some(&names(&["archive-assistant.txt/"]))));
    assert!(!zip_has_manifest(Some(&[])));
    assert!(!zip_has_manifest(None));
}
