use asset_bundler::archive::{is_storable, ArchiveEntry, ArchiveSink};
use asset_bundler::error::Error;
use std::io::Read;

fn read_archive(bytes: &[u8]) -> Vec<(String, Vec<u8>, u32, u64, u64)> {
    let mut archive = tar::Archive::new(bytes);
    let mut out = Vec::new();
    for entry in archive.entries().unwrap() {
        let mut entry = entry.unwrap();
        let name = entry.path().unwrap().to_string_lossy().to_string();
        let mode = entry.header().mode().unwrap();
        let mtime = entry.header().mtime().unwrap();
        let size = entry.header().size().unwrap();
        let mut data = Vec::new();
        entry.read_to_end(&mut data).unwrap();
        out.push((name, data, mode, mtime, size));
    }
    out
}

fn entry(name: &str, data: &[u8]) -> ArchiveEntry {
    ArchiveEntry { name: name.to_string(), data: data.to_vec() }
}

#[test]
fn empty_sink_finalizes_to_end_marker() {
    let bytes = ArchiveSink::new(7).finalize().unwrap();
    assert_eq!(bytes, vec![0u8; 1024]);
    assert!(read_archive(&bytes).is_empty());
}

#[test]
fn appended_entries_come_back_by_name_size_and_content() {
    let mut sink = ArchiveSink::new(1_600_000_000);
    sink.append(&entry("a.png", &[1, 2, 3])).unwrap();
    sink.append(&entry("dir_b.png", &[])).unwrap();
    sink.append(&entry("c.png", &[9u8; 1000])).unwrap();
    let bytes = sink.finalize().unwrap();
    let entries = read_archive(&bytes);
    assert_eq!(entries.len(), 3);
    assert_eq!(entries[0], ("a.png".to_string(), vec![1, 2, 3], 0o644, 1_600_000_000, 3));
    assert_eq!(entries[1], ("dir_b.png".to_string(), vec![], 0o644, 1_600_000_000, 0));
    assert_eq!(entries[2], ("c.png".to_string(), vec![9u8; 1000], 0o644, 1_600_000_000, 1000));
}

#[test]
fn archive_is_a_sequence_of_512_byte_blocks() {
    let mut sink = ArchiveSink::new(0);
    sink.append(&entry("x", &[5u8; 513])).unwrap();
    let bytes = sink.finalize().unwrap();
    // Header, two blocks of content, end marker of two blocks.
    assert_eq!(bytes.len(), 512 + 1024 + 1024);
    assert_eq!(&bytes[0..1], b"x");
    assert_eq!(&bytes[512..1025], &[5u8; 513][..]);
}

#[test]
fn long_names_come_back_whole() {
    let name = format!("{}.png", "n".repeat(150));
    let mut sink = ArchiveSink::new(3);
    sink.append(&entry(&name, &[4, 5])).unwrap();
    let entries = read_archive(&sink.finalize().unwrap());
    assert_eq!(entries.len(), 1);
    assert_eq!(entries[0].0, name);
    assert_eq!(entries[0].1, vec![4, 5]);
}

#[test]
fn refused_name_is_an_io_error_and_leaves_the_sink_as_it_was() {
    let mut sink = ArchiveSink::new(11);
    sink.append(&entry("kept.png", &[1])).unwrap();
    let refused = sink.append(&entry("../escape.png", &[2]));
    assert!(matches!(refused, Err(Error::Io(_))));
    let empty_name = sink.append(&entry("", &[3]));
    assert!(matches!(empty_name, Err(Error::Io(_))));
    sink.append(&entry("also_kept.png", &[4])).unwrap();
    let entries = read_archive(&sink.finalize().unwrap());
    assert_eq!(entries.len(), 2);
    assert_eq!(entries[0].0, "kept.png");
    assert_eq!(entries[1].0, "also_kept.png");
    assert_eq!(entries[1].1, vec![4]);
}

#[test]
fn every_entry_carries_the_run_wide_mtime() {
    let mut sink = ArchiveSink::new(42);
    for i in 0..5u8 {
        sink.append(&entry(&format!("e{}.png", i), &[i])).unwrap();
    }
    for e in read_archive(&sink.finalize().unwrap()) {
        assert_eq!(e.2, 0o644);
        assert_eq!(e.3, 42);
    }
}

#[test]
fn same_entries_give_the_same_bytes() {
    let build = |mtime: u64| -> Vec<u8> {
        let mut sink = ArchiveSink::new(mtime);
        sink.append(&entry("a.png", &[1, 2, 3])).unwrap();
        sink.append(&entry(&"long".repeat(40), &[4u8; 700])).unwrap();
        sink.finalize().unwrap()
    };
    assert_eq!(build(5), build(5));
    assert_ne!(build(5), build(6));
}

#[test]
fn names_that_are_stored_as_given() {
    let ok = |s: &str| -> bool { is_storable(&s.chars().collect()) };
    for name in ["a", "a.png", "dir/a.png", "a/b/c", "..a", "a..", "a/.b", "a/b..", "...", "x_y_0.png"] {
        assert!(ok(name), "{}", name);
    }
    for name in [
        "", "/a", "a/", "a//b", ".", "..", "./a", "a/.", "a/./b", "../a", "a/..", "a/../b", "a\\b",
        "a\0b", "C:a", "x:", "a/b/", "//",
    ] {
        assert!(!ok(name), "{:?}", name);
    }
}

#[test]
fn append_succeeds_exactly_on_storable_names() {
    let names = [
        "a", "dir/a.png", "..a", "a/.b", "", "/a", "a/", "a//b", ".", "./a", "a/./b", "a/../b",
        "a\\b", "C:a",
    ];
    let mut expected = Vec::new();
    let mut sink = ArchiveSink::new(1);
    for (i, name) in names.iter().enumerate() {
        let r = sink.append(&entry(name, &[i as u8]));
        assert_eq!(r.is_ok(), is_storable(&name.chars().collect()), "{:?}", name);
        if r.is_ok() {
            expected.push((name.to_string(), vec![i as u8]));
        } else {
            assert!(matches!(r, Err(Error::Io(_))));
        }
    }
    let entries = read_archive(&sink.finalize().unwrap());
    let found: Vec<(String, Vec<u8>)> = entries.into_iter().map(|e| (e.0, e.1)).collect();
    assert_eq!(found, expected);
}

#[test]
fn archive_ends_with_the_end_marker() {
    let mut sink = ArchiveSink::new(1);
    sink.append(&entry("a", &[7u8; 100])).unwrap();
    let bytes = sink.finalize().unwrap();
    assert!(bytes.len() >= 1024);
    assert!(bytes[bytes.len() - 1024..].iter().all(|b| *b == 0));
    assert!(bytes[..bytes.len() - 1024].iter().any(|b| *b != 0));
}

#[test]
fn long_storable_names_are_stored_as_given() {
    let mut names = Vec::new();
    for k in 88..104 {
        for tail in ["/..b", "/.b", "/b..", "/b/c.png", "..", "/b"] {
            names.push(format!("{}{}{}", "a".repeat(k), tail, "c".repeat(20)));
            names.push(format!("{}{}", "a".repeat(k), tail.trim_end_matches('.')).to_string());
        }
    }
    let mut sink = ArchiveSink::new(1);
    let mut expected = Vec::new();
    for name in names {
        if is_storable(&name.chars().collect()) {
            sink.append(&entry(&name, &[1])).unwrap();
            expected.push(name);
        }
    }
    assert!(expected.len() > 100);
    let found: Vec<String> =
        read_archive(&sink.finalize().unwrap()).into_iter().map(|e| e.0).collect();
    assert_eq!(found, expected);
}
