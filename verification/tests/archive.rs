use eris::errors::Fault;
use eris::ziper::{Extraction, Method, RawEntry, SourceEntry, Unpacked, Ziper};

fn file(path: &str, content: &[u8]) -> SourceEntry {
    SourceEntry { path: path.to_string(), is_file: true, content: Some(content.to_vec()) }
}

fn dir(path: &str) -> SourceEntry {
    SourceEntry { path: path.to_string(), is_file: false, content: None }
}

fn written(path: &str, parent: Option<&str>, content: &[u8]) -> Extraction {
    Extraction::File {
        path: path.to_string(),
        parent: parent.map(|p| p.to_string()),
        content: content.to_vec(),
    }
}

fn made(path: &str) -> Extraction {
    Extraction::Directory { path: path.to_string() }
}

fn sample() -> Vec<SourceEntry> {
    vec![
        dir("root"),
        file("root/a.txt", b"hello"),
        dir("root/sub"),
        file("root/sub/b.txt", b""),
        file("root/sub/c.bin", &[0, 159, 146, 150, 255]),
    ]
}

fn position(haystack: &[u8], needle: &[u8]) -> usize {
    haystack.windows(needle.len()).position(|w| w == needle).unwrap()
}

#[test]
fn pack_then_unpack_under_a_prefix() {
    let ziper = Ziper::new();
    let bytes = ziper.zip_dir(&sample(), "root", Method::Stored).unwrap();
    let unpacked = ziper.unzip(Some("out"), bytes);
    assert_eq!(
        unpacked,
        Unpacked {
            steps: vec![
                written("out/a.txt", Some("out"), b"hello"),
                made("out/sub/"),
                written("out/sub/b.txt", Some("out/sub"), b""),
                written("out/sub/c.bin", Some("out/sub"), &[0, 159, 146, 150, 255]),
            ],
            fault: None,
        }
    );
}

#[test]
fn unpack_without_a_prefix() {
    let ziper = Ziper::new();
    let bytes = ziper.zip_dir(&sample(), "root", Method::Stored).unwrap();
    let unpacked = ziper.unzip(None, bytes);
    assert_eq!(
        unpacked.steps,
        vec![
            written("a.txt", None, b"hello"),
            made("sub/"),
            written("sub/b.txt", Some("sub"), b""),
            written("sub/c.bin", Some("sub"), &[0, 159, 146, 150, 255]),
        ]
    );
    assert_eq!(unpacked.fault, None);
}

#[test]
fn deflated_content_comes_back() {
    let ziper = Ziper::new();
    let text = "template ".repeat(500);
    let items = vec![file("r/index.html", text.as_bytes())];
    let stored = ziper.zip_dir(&items, "r", Method::Stored).unwrap();
    let deflated = ziper.zip_dir(&items, "r", Method::Deflated).unwrap();
    assert!(deflated.len() < stored.len());
    assert!(stored.len() > text.len());
    let unpacked = ziper.unzip(Some("o/"), deflated);
    assert_eq!(unpacked.steps, vec![written("o/index.html", Some("o"), text.as_bytes())]);
    assert_eq!(unpacked.fault, None);
}

#[test]
fn names_come_back_in_order() {
    let ziper = Ziper::new();
    let bytes = ziper.zip_dir(&sample(), "root", Method::Stored).unwrap();
    let first = ziper.unzip(Some("d"), bytes);
    assert_eq!(first.fault, None);
    let listing: Vec<SourceEntry> = first
        .steps
        .iter()
        .map(|step| match step {
            Extraction::Directory { path } => dir(path.trim_end_matches('/')),
            Extraction::File { path, content, .. } => file(path, content),
        })
        .collect();
    let again = ziper.zip_dir(&listing, "d", Method::Stored).unwrap();
    let second = ziper.unzip(Some("d"), again);
    assert_eq!(second, first);
}

#[test]
fn unpacking_twice_gives_the_same_steps() {
    let ziper = Ziper::new();
    let bytes = ziper.zip_dir(&sample(), "root", Method::Deflated).unwrap();
    assert_eq!(ziper.unzip(Some("x"), bytes.clone()), ziper.unzip(Some("x"), bytes));
}

#[test]
fn the_root_is_never_written() {
    let ziper = Ziper::new();
    let bytes = ziper.zip_dir(&vec![dir("root"), dir("root/")], "root", Method::Stored).unwrap();
    assert_eq!(ziper.unzip(None, bytes), Unpacked { steps: vec![], fault: None });
}

#[test]
fn empty_listing_gives_an_empty_archive() {
    let ziper = Ziper::new();
    let bytes = ziper.zip_dir(&vec![], "root", Method::Stored).unwrap();
    assert!(!bytes.is_empty());
    assert_eq!(ziper.unzip(Some("o"), bytes), Unpacked { steps: vec![], fault: None });
}

#[test]
fn entries_that_leave_the_destination_are_passed_over() {
    let ziper = Ziper::new();
    let items = vec![
        file("root/../evil.txt", b"x"),
        file("root/ok.txt", b"y"),
        file("root//abs.txt", b"z"),
    ];
    let bytes = ziper.zip_dir(&items, "root", Method::Stored).unwrap();
    let unpacked = ziper.unzip(Some("out"), bytes);
    assert_eq!(unpacked.steps, vec![written("out/ok.txt", Some("out"), b"y")]);
    assert_eq!(unpacked.fault, None);
}

#[test]
fn bytes_that_are_no_archive() {
    let ziper = Ziper::new();
    assert_eq!(
        ziper.unzip(Some("out"), b"this is not a zip archive".to_vec()),
        Unpacked { steps: vec![], fault: Some(Fault::ArchiveInvalid) }
    );
    assert_eq!(ziper.unzip(None, vec![]).fault, Some(Fault::ArchiveInvalid));
}

#[test]
fn entry_with_damaged_content() {
    let ziper = Ziper::new();
    let items = vec![file("r/first.txt", b"first"), file("r/a.txt", b"hello"), file("r/z.txt", b"z")];
    let mut bytes = ziper.zip_dir(&items, "r", Method::Stored).unwrap();
    let at = position(&bytes, b"hello");
    bytes[at] = b'j';
    let unpacked = ziper.unzip(Some("out"), bytes);
    assert_eq!(unpacked.steps, vec![written("out/first.txt", Some("out"), b"first")]);
    assert_eq!(unpacked.fault, Some(Fault::EntryContent));
}

#[test]
fn entry_with_damaged_header() {
    let ziper = Ziper::new();
    let mut bytes = ziper.zip_dir(&vec![file("r/a.txt", b"hello")], "r", Method::Stored).unwrap();
    assert_eq!(&bytes[0..4], b"PK\x03\x04");
    bytes[2] = 9;
    let unpacked = ziper.unzip(Some("out"), bytes);
    assert_eq!(unpacked, Unpacked { steps: vec![], fault: Some(Fault::EntryHeader) });
}

fn le16(n: u16) -> [u8; 2] {
    n.to_le_bytes()
}

fn le32(n: u32) -> [u8; 4] {
    n.to_le_bytes()
}

/// An archive with the one stored entry `a.txt`, whose directory record
/// carries `extra` and the flags `flags`.
fn hand_made(flags: u16, extra: &[u8]) -> Vec<u8> {
    let name = b"a.txt";
    let data = b"hi";
    let crc: u32 = 0xd893_2aac;
    let mut bytes = Vec::new();
    bytes.extend_from_slice(b"PK\x03\x04");
    bytes.extend_from_slice(&le16(20));
    bytes.extend_from_slice(&le16(flags));
    bytes.extend_from_slice(&le16(0));
    bytes.extend_from_slice(&le16(0));
    bytes.extend_from_slice(&le16(0x21));
    bytes.extend_from_slice(&le32(crc));
    bytes.extend_from_slice(&le32(2));
    bytes.extend_from_slice(&le32(2));
    bytes.extend_from_slice(&le16(5));
    bytes.extend_from_slice(&le16(0));
    bytes.extend_from_slice(name);
    bytes.extend_from_slice(data);
    let directory_at = bytes.len();
    bytes.extend_from_slice(b"PK\x01\x02");
    bytes.extend_from_slice(&le16(0x0314));
    bytes.extend_from_slice(&le16(20));
    bytes.extend_from_slice(&le16(flags));
    bytes.extend_from_slice(&le16(0));
    bytes.extend_from_slice(&le16(0));
    bytes.extend_from_slice(&le16(0x21));
    bytes.extend_from_slice(&le32(crc));
    bytes.extend_from_slice(&le32(2));
    bytes.extend_from_slice(&le32(2));
    bytes.extend_from_slice(&le16(5));
    bytes.extend_from_slice(&le16(extra.len().try_into().unwrap()));
    bytes.extend_from_slice(&le16(0));
    bytes.extend_from_slice(&le16(0));
    bytes.extend_from_slice(&le16(0));
    bytes.extend_from_slice(&le32(0));
    bytes.extend_from_slice(&le32(0));
    bytes.extend_from_slice(name);
    bytes.extend_from_slice(extra);
    let directory_len = bytes.len() - directory_at;
    bytes.extend_from_slice(b"PK\x05\x06");
    bytes.extend_from_slice(&le16(0));
    bytes.extend_from_slice(&le16(0));
    bytes.extend_from_slice(&le16(1));
    bytes.extend_from_slice(&le16(1));
    bytes.extend_from_slice(&le32(directory_len.try_into().unwrap()));
    bytes.extend_from_slice(&le32(directory_at.try_into().unwrap()));
    bytes.extend_from_slice(&le16(0));
    bytes
}

#[test]
fn hand_made_archive_is_read() {
    let unpacked = Ziper::new().unzip(Some("out"), hand_made(0, &[]));
    assert_eq!(
        unpacked,
        Unpacked { steps: vec![written("out/a.txt", Some("out"), b"hi")], fault: None }
    );
}

#[test]
fn entry_marked_for_a_cipher_without_being_encrypted_is_refused() {
    let extra = [0x01, 0x99, 0x07, 0x00, 0x02, 0x00, 0x41, 0x45, 0x03, 0x00, 0x00];
    let unpacked = Ziper::new().unzip(Some("out"), hand_made(0, &extra));
    assert_eq!(unpacked, Unpacked { steps: vec![], fault: Some(Fault::EntryHeader) });
}

#[test]
fn encrypted_entry_is_not_unpacked() {
    let unpacked = Ziper::new().unzip(Some("out"), hand_made(1, &[]));
    assert!(unpacked.steps.is_empty());
    assert!(unpacked.fault.is_some());
}

#[test]
fn path_outside_the_root_ends_the_packing() {
    let ziper = Ziper::new();
    let items = vec![file("root/a.txt", b"a"), file("other/b.txt", b"b")];
    assert_eq!(ziper.zip_dir(&items, "root", Method::Stored), Err(Fault::OutsideRoot));
    assert_eq!(ziper.zip_dir(&vec![dir("rootless")], "root", Method::Stored), Err(Fault::OutsideRoot));
}

#[test]
fn unreadable_file_ends_the_packing() {
    let ziper = Ziper::new();
    let items = vec![
        file("root/a.txt", b"a"),
        SourceEntry { path: "root/b.txt".to_string(), is_file: true, content: None },
    ];
    assert_eq!(ziper.zip_dir(&items, "root", Method::Stored), Err(Fault::SourceUnreadable));
}

#[test]
fn stored_archive_holds_names_and_content() {
    let ziper = Ziper::new();
    let bytes = ziper.zip_dir(&sample(), "root", Method::Stored).unwrap();
    assert_eq!(&bytes[0..4], b"PK\x03\x04");
    position(&bytes, b"sub/b.txt");
    position(&bytes, b"hello");
    assert!(bytes.windows(5).all(|w| w != b"root/"));
}

#[test]
fn extraction_of_given_entries() {
    let ziper = Ziper::new();
    let entries = vec![
        Some(RawEntry { name: "d/".to_string(), enclosed: true, content: Some(vec![]) }),
        Some(RawEntry { name: "d/e/f.txt".to_string(), enclosed: true, content: Some(vec![1]) }),
        Some(RawEntry { name: "../x".to_string(), enclosed: false, content: Some(vec![2]) }),
        Some(RawEntry { name: "skipped/".to_string(), enclosed: false, content: None }),
        Some(RawEntry { name: "dir-without-content/".to_string(), enclosed: true, content: None }),
        Some(RawEntry { name: "top".to_string(), enclosed: true, content: Some(vec![3, 4]) }),
    ];
    assert_eq!(
        ziper.extraction(Some("p/q"), &entries),
        Unpacked {
            steps: vec![
                made("p/q/d/"),
                written("p/q/d/e/f.txt", Some("p/q/d/e"), &[1]),
                made("p/q/dir-without-content/"),
                written("p/q/top", Some("p/q"), &[3, 4]),
            ],
            fault: None,
        }
    );
}

#[test]
fn extraction_ends_at_the_first_fault() {
    let ziper = Ziper::new();
    let good = Some(RawEntry { name: "a".to_string(), enclosed: true, content: Some(vec![1]) });
    let unread = Some(RawEntry { name: "b".to_string(), enclosed: true, content: None });
    let hidden = Some(RawEntry { name: "/c".to_string(), enclosed: false, content: None });
    assert_eq!(
        ziper.extraction(None, &vec![good.clone(), hidden.clone(), unread.clone(), good.clone()]),
        Unpacked { steps: vec![written("a", None, &[1])], fault: Some(Fault::EntryContent) }
    );
    assert_eq!(
        ziper.extraction(Some(""), &vec![good.clone(), None, unread, good]),
        Unpacked { steps: vec![written("a", None, &[1])], fault: Some(Fault::EntryHeader) }
    );
    assert_eq!(ziper.extraction(None, &vec![hidden]), Unpacked { steps: vec![], fault: None });
    assert_eq!(ziper.extraction(None, &vec![]), Unpacked { steps: vec![], fault: None });
}
