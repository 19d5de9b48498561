//! What archives and folders hold.

use lixun::archive::{
    check_size, detect_format, enumerate, list_entries, map_7z_err, map_zip_err, populate,
    preview_limit, ArchiveError, ArchiveListing, Entry, Format, SevenZFault, ZipFault,
};
use lixun::folder::{
    list_dir, render, summary_line, Child, DirError, EntryKind, ListingEpoch, Node,
};
use lixun::hits::Row;
use lixun::sizes::{human_bytes, human_bytes_decimal};
use std::io::{Cursor, Write};

#[test]
fn detect_known_extensions() {
    assert_eq!(detect_format("a.zip"), Some(Format::Zip));
    assert_eq!(detect_format("a.tar"), Some(Format::Tar));
    assert_eq!(detect_format("a.tar.gz"), Some(Format::TarGz));
    assert_eq!(detect_format("a.tgz"), Some(Format::TarGz));
    assert_eq!(detect_format("a.tar.zst"), Some(Format::TarZst));
    assert_eq!(detect_format("a.tar.bz2"), Some(Format::TarBz2));
    assert_eq!(detect_format("a.7z"), Some(Format::SevenZ));
}

#[test]
fn detect_is_case_insensitive() {
    assert_eq!(detect_format("PHOTOS.ZIP"), Some(Format::Zip));
    assert_eq!(detect_format("Backup.Tar.GZ"), Some(Format::TarGz));
}

#[test]
fn detect_rejects_unknown() {
    assert_eq!(detect_format("a.gz"), None);
    assert_eq!(detect_format("a.txt"), None);
    assert_eq!(detect_format("noext"), None);
}

#[test]
fn unsupported_extension_errors() {
    let err = list_entries("/tmp/whatever.txt", Ok(Vec::new()), 10).unwrap_err();
    assert!(matches!(err, ArchiveError::Unsupported));
}

fn zip_of(files: &[(&str, &[u8])]) -> Vec<u8> {
    let mut zw = zip::ZipWriter::new(Cursor::new(Vec::new()));
    let opts: zip::write::FileOptions<()> = zip::write::FileOptions::default();
    for (name, data) in files {
        if name.ends_with('/') {
            zw.add_directory(*name, opts).unwrap();
        } else {
            zw.start_file(*name, opts).unwrap();
            zw.write_all(data).unwrap();
        }
    }
    zw.finish().unwrap().into_inner()
}

#[test]
fn lists_zip_entries() {
    let bytes =
        zip_of(&[("dir/", b""), ("dir/hello.txt", b"hello world"), ("root.bin", b"abc")]);
    let listing = list_entries("/tmp/list.zip", Ok(bytes), 5000).unwrap();
    assert!(!listing.truncated);

    let names: Vec<&str> = listing.entries.iter().map(|e| e.name.as_str()).collect();
    assert!(names.contains(&"dir/"));
    assert!(names.contains(&"dir/hello.txt"));
    assert!(names.contains(&"root.bin"));

    let dir = listing.entries.iter().find(|e| e.name == "dir/").unwrap();
    assert!(dir.is_dir);
    let file = listing.entries.iter().find(|e| e.name == "dir/hello.txt").unwrap();
    assert!(!file.is_dir);
    assert_eq!(file.size, 11);
}

#[test]
fn encrypted_payload_zip_still_lists_names() {
    let mut bytes = zip_of(&[("secret.txt", b"classified payload")]);
    for signature in [[b'P', b'K', 3u8, 4u8], [b'P', b'K', 1, 2]] {
        let flags = if signature[2] == 3 { 6 } else { 8 };
        let at = bytes.windows(4).position(|w| w == signature).unwrap();
        bytes[at + flags] |= 1;
    }
    let listing = list_entries("/tmp/encrypted.zip", Ok(bytes), 5000).unwrap();
    let names: Vec<&str> = listing.entries.iter().map(|e| e.name.as_str()).collect();
    assert!(names.contains(&"secret.txt"));
}

#[test]
fn zip_cap_marks_truncated() {
    let names: Vec<String> = (0..6).map(|i| format!("f{i}.txt")).collect();
    let files: Vec<(&str, &[u8])> = names.iter().map(|n| (n.as_str(), b"x".as_slice())).collect();
    let listing = list_entries("/tmp/cap.zip", Ok(zip_of(&files)), 3).unwrap();
    assert_eq!(listing.entries.len(), 3);
    assert!(listing.truncated);
}

fn tar_of(names: &[&str]) -> Vec<u8> {
    let mut builder = tar::Builder::new(Vec::new());
    for name in names {
        let data = b"tar payload";
        let mut header = tar::Header::new_gnu();
        header.set_size(data.len() as u64);
        header.set_cksum();
        builder.append_data(&mut header, name, &data[..]).unwrap();
    }
    builder.into_inner().unwrap()
}

fn assert_lists_tar(path: &str, bytes: Vec<u8>) {
    let listing = list_entries(path, Ok(bytes), 5000).unwrap();
    assert!(!listing.truncated);
    let entry = listing.entries.iter().find(|e| e.name == "inside.txt").unwrap();
    assert_eq!(entry.size, 11);
    assert!(!entry.is_dir);
}

#[test]
fn lists_tar_entries() {
    assert_lists_tar("/tmp/list.tar", tar_of(&["inside.txt"]));
}

#[test]
fn lists_compressed_tar_entries() {
    let plain = tar_of(&["inside.txt"]);

    let mut gz = flate2::write::GzEncoder::new(Vec::new(), flate2::Compression::default());
    gz.write_all(&plain).unwrap();
    assert_lists_tar("/tmp/list.tgz", gz.finish().unwrap());

    let mut bz = bzip2::write::BzEncoder::new(Vec::new(), bzip2::Compression::default());
    bz.write_all(&plain).unwrap();
    assert_lists_tar("/tmp/list.tar.bz2", bz.finish().unwrap());

    let zst = zstd::encode_all(&plain[..], 1).unwrap();
    assert_lists_tar("/tmp/list.tar.zst", zst);
}

#[test]
fn tar_cap_marks_truncated() {
    let listing = list_entries("/tmp/x.tar", Ok(tar_of(&["a", "b", "c"])), 2).unwrap();
    assert_eq!(listing.entries.len(), 2);
    assert!(listing.truncated);
    for path in ["/tmp/x.tar", "/tmp/x.zip"] {
        let files: &[(&str, &[u8])] = &[("a", b"1"), ("b", b"2")];
        let bytes = if path.ends_with("tar") { tar_of(&["a", "b"]) } else { zip_of(files) };
        let all = list_entries(path, Ok(bytes), usize::MAX).unwrap();
        assert_eq!((all.entries.len(), all.truncated), (2, false), "{path}");
    }
    let exact = list_entries("/tmp/x.tar", Ok(tar_of(&["a", "b"])), 2).unwrap();
    assert_eq!(exact.entries.len(), 2);
}

#[test]
fn lists_7z_entries() {
    let mut writer = sevenz_rust2::ArchiveWriter::new(Cursor::new(Vec::new())).unwrap();
    let entry = sevenz_rust2::ArchiveEntry::new_file("deep/note.txt");
    writer.push_archive_entry(entry, Some(&b"seven"[..])).unwrap();
    let bytes = writer.finish().unwrap().into_inner();
    let listing = list_entries("/tmp/x.7z", Ok(bytes), 5000).unwrap();
    assert_eq!(
        listing,
        ArchiveListing {
            entries: vec![Entry { name: "deep/note.txt".to_string(), size: 5, is_dir: false }],
            truncated: false,
        }
    );
}

#[test]
fn malformed_archive_does_not_panic() {
    for path in ["/tmp/broken.zip", "/tmp/broken.7z", "/tmp/broken.tar.zst", "/tmp/broken.tgz"] {
        let bytes = b"not a real archive at all".to_vec();
        let err = list_entries(path, Ok(bytes), 10).unwrap_err();
        assert!(matches!(err, ArchiveError::Malformed(_) | ArchiveError::Io(_)), "{path}: {err:?}");
    }
}

/// A sparse member whose size leaves no room for its extension header.
fn vast_sparse_tar() -> Vec<u8> {
    let mut header = tar::Header::new_gnu();
    header.set_path("vast").unwrap();
    header.set_entry_type(tar::EntryType::GNUSparse);
    header.set_size(u64::MAX - 1023);
    header.as_gnu_mut().unwrap().set_is_extended(true);
    header.set_cksum();
    let mut bytes = header.as_bytes().to_vec();
    bytes.extend([0u8; 512]);
    bytes
}

#[test]
fn a_size_beyond_all_positions_is_malformed() {
    let vast = vast_sparse_tar();
    let fault = Err(ArchiveError::Malformed("size overflow".to_string()));
    assert_eq!(list_entries("/tmp/vast.tar", Ok(vast.clone()), 10), fault);

    let mut gz = flate2::write::GzEncoder::new(Vec::new(), flate2::Compression::default());
    gz.write_all(&vast).unwrap();
    assert_eq!(list_entries("/tmp/vast.tgz", Ok(gz.finish().unwrap()), 10), fault);

    let mut bz = bzip2::write::BzEncoder::new(Vec::new(), bzip2::Compression::default());
    bz.write_all(&vast).unwrap();
    assert_eq!(list_entries("/tmp/vast.tar.bz2", Ok(bz.finish().unwrap()), 10), fault);

    let zst = zstd::encode_all(&vast[..], 1).unwrap();
    assert_eq!(list_entries("/tmp/vast.tar.zst", Ok(zst), 10), fault);
}

#[test]
fn faults_are_told_apart() {
    let unsupported = |why: &str| map_zip_err(ZipFault::UnsupportedArchive(why.to_string()));
    assert_eq!(unsupported("Password required to decrypt file"), ArchiveError::Encrypted);
    assert_eq!(
        map_zip_err(ZipFault::Io("gone".to_string())),
        ArchiveError::Io("gone".to_string())
    );
    assert_eq!(map_7z_err(SevenZFault::PasswordRequired), ArchiveError::Encrypted);
    assert_eq!(map_7z_err(SevenZFault::MaybeBadPassword), ArchiveError::Encrypted);
    assert_eq!(
        map_7z_err(SevenZFault::Other("bad".to_string())),
        ArchiveError::Malformed("bad".to_string())
    );

    let err = list_entries("/tmp/x.zip", Err("denied".to_string()), 10).unwrap_err();
    assert_eq!(err, ArchiveError::Io("denied".to_string()));
    assert!(err.to_text().contains("denied"));
}

#[test]
fn large_archives_are_not_opened() {
    let limit = preview_limit(1);
    assert_eq!(limit, 1_048_576);
    assert_eq!(preview_limit(u64::MAX), u64::MAX);
    assert!(check_size(limit, Some(limit)).is_none());
    assert!(check_size(limit, None).is_none());
    let refused = enumerate("/tmp/x.zip", limit, Some(limit + 1), Ok(Vec::new())).unwrap_err();
    assert!(matches!(refused, ArchiveError::Io(_)), "{refused:?}");
}

#[test]
fn archive_rows_show_sizes_of_files_only() {
    let listing = ArchiveListing {
        entries: vec![
            Entry { name: "d/".to_string(), size: 0, is_dir: true },
            Entry { name: "f".to_string(), size: 2048, is_dir: false },
        ],
        truncated: true,
    };
    assert_eq!(
        populate(Ok(listing)),
        vec![
            Row::Entry { icon: "folder".to_string(), name: "d/".to_string(), size: None },
            Row::Entry {
                icon: "text-x-generic".to_string(),
                name: "f".to_string(),
                size: Some("2.0 KiB".to_string()),
            },
            Row::Status("… listing truncated at 5000 entries".to_string()),
        ]
    );
    let empty = ArchiveListing { entries: vec![], truncated: false };
    assert_eq!(populate(Ok(empty)), vec![Row::Status("Archive is empty".to_string())]);
    assert_eq!(
        populate(Err(ArchiveError::Encrypted)),
        vec![Row::Status("encrypted archive: cannot list without a password".to_string())]
    );
}

// -- folders ----------------------------------------------------------------

fn child(name: &str, node: Node) -> Child {
    Child { name: Some(name.to_string()), node: Some(node) }
}

#[test]
fn counts_files_dirs_and_immediate_total_size() {
    let result = list_dir(
        Ok(vec![
            child("a.txt", Node::File { len: 5 }),
            child("b.bin", Node::File { len: 8 }),
            child("inner", Node::Dir),
        ]),
        100,
    )
    .expect("list ok");

    assert_eq!(result.files, 2, "two immediate regular files");
    assert_eq!(result.dirs, 1, "one immediate subdirectory");
    assert_eq!(result.total_size, 13, "only immediate file bytes counted (5 + 8)");
    assert!(!result.truncated);
    assert_eq!(summary_line(&result), "2 files, 1 folders · 13 B");
}

#[test]
fn sort_dirs_before_files_alphabetically() {
    let result = list_dir(
        Ok(vec![
            child("z_file.txt", Node::File { len: 1 }),
            child("a_file.txt", Node::File { len: 1 }),
            child("b_dir", Node::Dir),
            child("A_dir", Node::Dir),
        ]),
        100,
    )
    .expect("list ok");

    let names: Vec<&str> = result.entries.iter().map(|e| e.name.as_str()).collect();
    assert_eq!(names, vec!["A_dir", "b_dir", "a_file.txt", "z_file.txt"]);
}

#[test]
fn symlink_is_classified_and_not_followed() {
    let result = list_dir(
        Ok(vec![child("target.bin", Node::File { len: 999 }), child("alias", Node::Symlink)]),
        100,
    )
    .expect("list ok");

    let alias = result.entries.iter().find(|e| e.name == "alias").expect("alias entry present");
    assert_eq!(alias.kind, EntryKind::Symlink, "alias is a symlink");
    assert_eq!(alias.size, None, "symlink size not reported");
    assert_eq!(result.files, 1, "only the regular file counts");
    assert_eq!(result.total_size, 999);
}

#[test]
fn truncates_when_over_cap() {
    let children = (0..10).map(|i| child(&format!("f{i:02}.txt"), Node::File { len: 1 })).collect();
    let result = list_dir(Ok(children), 3).expect("list ok");

    assert!(result.truncated, "truncated flag set");
    assert_eq!(result.entries.len(), 3, "rendered slice capped");
    assert_eq!(result.files, 10);
    assert_eq!(result.dirs, 0);
}

#[test]
fn non_directory_path_returns_io_error() {
    let result = list_dir(Err("Not a directory (os error 20)".to_string()), 100);
    assert!(
        matches!(result, Err(DirError::Io(_))),
        "expected Io error for non-directory path, got {result:?}"
    );
    assert!(result.unwrap_err().to_text().contains("Not a directory"));
}

#[test]
fn empty_directory_lists_cleanly() {
    let result = list_dir(Ok(Vec::new()), 100).expect("list ok");
    assert!(result.entries.is_empty());
    assert_eq!(result.files, 0);
    assert_eq!(result.dirs, 0);
    assert_eq!(result.total_size, 0);
    assert!(!result.truncated);
    assert_eq!(render(&Ok(result)).rows, vec![Row::Status("Folder is empty".to_string())]);
}

#[test]
fn huge_folders_do_not_overflow() {
    let result = list_dir(
        Ok(vec![
            child("a", Node::File { len: u64::MAX }),
            child("b", Node::File { len: 5 }),
            Child { name: None, node: None },
        ]),
        100,
    )
    .unwrap();
    assert_eq!(result.total_size, u64::MAX);
    assert_eq!(result.entries.len(), 3);
}

#[test]
fn only_the_newest_listing_is_shown() {
    let mut epochs = ListingEpoch::new();
    let first = epochs.begin();
    assert!(epochs.is_current(first));
    let second = epochs.begin();
    assert!(!epochs.is_current(first));
    assert!(epochs.is_current(second));
}

// -- sizes ------------------------------------------------------------------

#[test]
fn human_bytes_sensible() {
    assert_eq!(human_bytes(100), "100 B");
    assert_eq!(human_bytes(2048), "2.0 KiB");
    assert_eq!(human_bytes(5 * 1024 * 1024), "5.0 MiB");
}

#[test]
fn human_bytes_scales() {
    assert_eq!(human_bytes(42), "42 B");
    assert_eq!(human_bytes(2048), "2.0 KiB");
    assert_eq!(human_bytes(3 * 1024 * 1024 + 512 * 1024), "3.5 MiB");
    assert_eq!(human_bytes(5 * 1024 * 1024 * 1024), "5.0 GiB");
}

#[test]
fn human_bytes_decimal_units() {
    assert_eq!(human_bytes_decimal(42), "42 B");
    assert_eq!(human_bytes_decimal(1_200), "1.2 KB");
    assert_eq!(human_bytes_decimal(3_500_000), "3.5 MB");
    assert_eq!(human_bytes_decimal(2_000_000_000), "2.0 GB");
}

/// The same texts by floating point.
fn by_float(n: u64, base: u64, units: [&str; 3]) -> String {
    let mut divisor = base;
    if n < divisor {
        return format!("{n} B");
    }
    for (i, unit) in units.iter().enumerate() {
        if i == units.len() - 1 || n < divisor * base {
            return format!("{:.1} {unit}", n as f64 / divisor as f64);
        }
        divisor *= base;
    }
    unreachable!()
}

#[test]
fn sizes_round_as_floating_point_does() {
    let mut n: u64 = 1;
    for _ in 0..4000 {
        n = n.wrapping_mul(6364136223846793005).wrapping_add(1442695040888963407);
        for shift in [0, 11, 23, 31, 37, 43, 50, 54] {
            let size = n >> shift;
            assert_eq!(human_bytes(size), by_float(size, 1024, ["KiB", "MiB", "GiB"]), "{size}");
            assert_eq!(
                human_bytes_decimal(size),
                by_float(size, 1000, ["KB", "MB", "GB"]),
                "{size}"
            );
        }
    }
    for size in [1023, 1024, 1075, 1076, 1177, 1_048_575, u64::MAX, 999, 1050, 1150, 1250, 999_949] {
        assert_eq!(human_bytes(size), by_float(size, 1024, ["KiB", "MiB", "GiB"]), "{size}");
        assert_eq!(human_bytes_decimal(size), by_float(size, 1000, ["KB", "MB", "GB"]), "{size}");
    }
}
