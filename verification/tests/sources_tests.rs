use blades::sources::{FileEntry, Format, Sources};
use blades::types::Span;

fn file(path: &str, bytes: &[u8]) -> FileEntry {
    FileEntry {
        path: path.to_string(),
        bytes: bytes.to_vec(),
        date: None,
        format: Format::Toml,
    }
}

#[test]
fn extension_selects_format() {
    assert_eq!(Format::from_extension("toml"), Some(Format::Toml));
    assert_eq!(Format::from_extension("md"), Some(Format::Markdown));
    assert_eq!(Format::from_extension("txt"), None);
    assert_eq!(Format::from_extension(""), None);
}

#[test]
fn scanning_one_directory_builds_contiguous_ranges() {
    let mut arena = Sources::new("content".to_string());
    let (i, dir) = arena.next_pending(0).expect("the root waits to be scanned");
    assert_eq!(i, 0);
    assert_eq!(dir, "content");

    arena.step(
        0,
        dir,
        vec![file("content/one", b"one!"), file("content/two", b"two!!")],
        vec!["content/sub".to_string()],
        Some(file("content/index", b"root")),
    );

    let records = arena.sources();
    assert_eq!(records.len(), 4);
    // the files fill the pages range, the subdirectory the subsections range
    assert_eq!(records[0].pages, Span { start: 1, end: 3 });
    assert_eq!(records[0].subsections, Span { start: 3, end: 4 });
    assert_eq!(records[1].path, "content/one");
    assert_eq!(records[2].path, "content/two");
    assert_eq!(records[1].parent, 0);
    assert_eq!(records[3].parent, 0);
    assert!(records[3].is_section);
    assert_eq!(records[3].to_load, Some("content/sub".to_string()));

    // every record's bytes are retrievable from the shared buffer
    assert_eq!(arena.source_bytes(1), b"one!");
    assert_eq!(arena.source_bytes(2), b"two!!");
    assert_eq!(arena.source_bytes(0), b"root");

    // the subdirectory is the next pending record; scanning it closes it
    let (j, sub) = arena.next_pending(1).expect("the subdirectory is pending");
    assert_eq!(j, 3);
    arena.step(3, sub, vec![file("content/sub/inner", b"in")], Vec::new(), None);
    assert_eq!(arena.sources().len(), 5);
    assert_eq!(arena.sources()[3].pages, Span { start: 4, end: 5 });
    assert_eq!(arena.sources()[3].subsections, Span { start: 0, end: 0 });
    assert_eq!(arena.sources()[4].parent, 3);
    assert_eq!(arena.source_bytes(4), b"in");
    assert!(arena.next_pending(0).is_none());
}

#[test]
fn directory_without_index_keeps_an_empty_record() {
    let mut arena = Sources::new("content".to_string());
    arena.step(0, "content".to_string(), Vec::new(), Vec::new(), None);
    let records = arena.sources();
    assert_eq!(records.len(), 1);
    assert_eq!(records[0].source, Span { start: 0, end: 0 });
    assert_eq!(records[0].pages, Span { start: 1, end: 1 });
    assert!(records[0].to_load.is_none());
}
