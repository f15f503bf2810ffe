use tamper_protection::aggregate::compute_folder_digest;
use tamper_protection::content::hash_content;
use tamper_protection::entry::FileEntry;
use tamper_protection::error::DigestError;
use tamper_protection::scan::{SaltedDigestRequest, TreeScan, WalkEvent};

fn request(salt: &[u8]) -> SaltedDigestRequest {
    SaltedDigestRequest { root_path: String::from("./my_folder"), salt: salt.to_vec() }
}

fn regular(path: &str, content: &[u8]) -> WalkEvent {
    WalkEvent::Regular { path: path.as_bytes().to_vec(), content_hash: hash_content(content) }
}

#[test]
fn scan_needs_a_directory() {
    match TreeScan::begin(request(b"x"), false) {
        Err(error) => {
            assert_eq!(error, DigestError::DirectoryNotFound { root: String::from("./my_folder") })
        }
        Ok(_) => panic!("a scan was started without a directory"),
    }
    assert!(TreeScan::begin(request(b"x"), true).is_ok());
}

#[test]
fn scan_of_nothing_is_the_empty_tree() {
    let scan = TreeScan::begin(request(b"x"), true).unwrap();
    assert_eq!(scan.file_count(), 0);
    assert_eq!(
        scan.finish().to_hex(),
        "2d711642b726b04401627ca9fbac32f5c8530fb1903cc4db02258717921a4881"
    );
}

#[test]
fn scan_collects_regular_files_only() {
    let mut scan = TreeScan::begin(request(b"s1"), true).unwrap();
    assert_eq!(scan.record(WalkEvent::NotRegular), Ok(()));
    assert_eq!(scan.record(regular("b/c.txt", b"world")), Ok(()));
    assert_eq!(scan.record(WalkEvent::Unreadable), Ok(()));
    assert_eq!(scan.record(WalkEvent::NotRegular), Ok(()));
    assert_eq!(scan.record(regular("a.txt", b"hello")), Ok(()));
    assert_eq!(scan.file_count(), 2);
    assert_eq!(
        scan.finish().to_hex(),
        "e9266b0256e3a624f66ba373feee3dbf3d7862cce2c1480a30934ac3f6f67e0e"
    );
}

#[test]
fn scan_stops_at_a_file_that_cannot_be_read() {
    let mut scan = TreeScan::begin(request(b"s1"), true).unwrap();
    assert_eq!(scan.record(regular("a.txt", b"hello")), Ok(()));
    assert_eq!(
        scan.record(WalkEvent::Failed { file: String::from("b/c.txt") }),
        Err(DigestError::UnreadableFile { path: String::from("b/c.txt") })
    );
    assert_eq!(scan.file_count(), 1);
}

#[test]
fn scan_gives_the_digest_of_its_files() {
    let mut scan = TreeScan::begin(request(b"salt"), true).unwrap();
    scan.record(regular("z", b"last")).unwrap();
    scan.record(regular("m", b"middle")).unwrap();
    let entries = vec![
        FileEntry::new(b"m", hash_content(b"middle")),
        FileEntry::new(b"z", hash_content(b"last")),
    ];
    assert_eq!(scan.finish(), compute_folder_digest(entries, b"salt"));
}

#[test]
fn scan_uses_the_salt_of_its_request() {
    let mut with_s1 = TreeScan::begin(request(b"s1"), true).unwrap();
    let mut with_s2 = TreeScan::begin(request(b"s2"), true).unwrap();
    with_s1.record(regular("a.txt", b"hello")).unwrap();
    with_s2.record(regular("a.txt", b"hello")).unwrap();
    assert_eq!(
        with_s1.finish().to_hex(),
        "c3c39d5da9e3c9b5adfca08261484e07fc2194158fb95c766b7edea81758b775"
    );
    assert_ne!(
        with_s2.finish().to_hex(),
        "c3c39d5da9e3c9b5adfca08261484e07fc2194158fb95c766b7edea81758b775"
    );
}
