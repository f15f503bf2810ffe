use std::path::Path;

use tamper_protection::entry::{entry_precedes, FileEntry};
use tamper_protection::order::{compare_bytes, compare_paths, Precedence};
use tamper_protection::sorting::sort_entries;

fn entry(path: &str, fill: u8) -> FileEntry {
    FileEntry::new(path.as_bytes(), [fill; 32])
}

fn paths_of(entries: &Vec<FileEntry>) -> Vec<String> {
    let mut paths = Vec::new();
    for e in entries {
        paths.push(String::from_utf8(e.path.clone()).unwrap());
    }
    paths
}

fn components_of(path: &[u8]) -> Vec<Vec<u8>> {
    path.split(|byte| *byte == b'/').map(|part| part.to_vec()).collect()
}

#[test]
fn compare_bytes_orders_by_first_difference() {
    assert_eq!(compare_bytes(b"abc", b"abd"), Precedence::Before);
    assert_eq!(compare_bytes(b"abd", b"abc"), Precedence::After);
    assert_eq!(compare_bytes(b"b", b"abc"), Precedence::After);
    assert_eq!(compare_bytes(b"abc", b"abc"), Precedence::Same);
}

#[test]
fn compare_bytes_puts_a_prefix_first() {
    assert_eq!(compare_bytes(b"", b""), Precedence::Same);
    assert_eq!(compare_bytes(b"", b"a"), Precedence::Before);
    assert_eq!(compare_bytes(b"a", b""), Precedence::After);
    assert_eq!(compare_bytes(b"a", b"a.txt"), Precedence::Before);
}

#[test]
fn compare_bytes_compares_bytes_by_value() {
    assert_eq!(compare_bytes(&[0x7f], &[0x80]), Precedence::Before);
    assert_eq!(compare_bytes(&[0xff], &[0x00, 0x01]), Precedence::After);
    assert_eq!(compare_bytes(b"A", b"a"), Precedence::Before);
    // Taken as plain bytes, the separator is a byte like any other.
    assert_eq!(compare_bytes(b"a.txt", b"a/z"), Precedence::Before);
    assert_eq!(compare_bytes(&[0x2e], &[0x2f]), Precedence::Before);
    assert_eq!(compare_bytes(&[0x2f], &[0x30]), Precedence::Before);
}

#[test]
fn compare_paths_goes_by_component() {
    assert_eq!(compare_paths(b"a/z", b"a.txt"), Precedence::Before);
    assert_eq!(compare_paths(b"a.txt", b"a/z"), Precedence::After);
    assert_eq!(compare_paths(b"docs/readme.md", b"docs-old/readme.md"), Precedence::Before);
    assert_eq!(compare_paths(b"docs/a/b", b"docs/readme.md"), Precedence::Before);
    assert_eq!(compare_paths(b"a/b", b"a/b"), Precedence::Same);
    assert_eq!(compare_paths(b"a/b", b"a/c"), Precedence::Before);
    assert_eq!(compare_paths(b"b/a", b"a/b"), Precedence::After);
}

#[test]
fn compare_paths_puts_a_prefix_first() {
    assert_eq!(compare_paths(b"", b""), Precedence::Same);
    assert_eq!(compare_paths(b"", b"a"), Precedence::Before);
    assert_eq!(compare_paths(b"a", b"a/z"), Precedence::Before);
    assert_eq!(compare_paths(b"a/z", b"a"), Precedence::After);
    assert_eq!(compare_paths(b"a", b"a.txt"), Precedence::Before);
    assert_eq!(compare_paths(b"a/", b"a"), Precedence::After);
}

#[test]
fn compare_paths_ranks_every_byte() {
    // The separator comes first, then every other byte by its value.
    assert_eq!(compare_paths(&[0x2f], &[0x00]), Precedence::Before);
    assert_eq!(compare_paths(&[0x00], &[0x2e]), Precedence::Before);
    assert_eq!(compare_paths(&[0x2e], &[0x30]), Precedence::Before);
    assert_eq!(compare_paths(&[0x30], &[0xff]), Precedence::Before);
    assert_eq!(compare_paths(&[0xff], &[0x2f]), Precedence::After);
    assert_eq!(compare_paths(&[0xfe], &[0xff]), Precedence::Before);
}

#[test]
fn compare_paths_agrees_with_the_order_of_paths() {
    let names = ["a", "a.txt", "a/z", "a-b/c", "a/b/c", "b", "a b", "A/x", "a/z/y", "ab", "a/zz"];
    for x in names {
        for y in names {
            let expected = if x == y {
                Precedence::Same
            } else if Path::new(x) < Path::new(y) {
                Precedence::Before
            } else {
                Precedence::After
            };
            assert_eq!(compare_paths(x.as_bytes(), y.as_bytes()), expected, "{} and {}", x, y);
        }
    }
}

#[test]
fn entries_are_ordered_by_path_then_hash() {
    assert!(entry_precedes(&entry("a", 9), &entry("b", 0)));
    assert!(!entry_precedes(&entry("b", 0), &entry("a", 9)));
    assert!(entry_precedes(&entry("a/z", 9), &entry("a.txt", 0)));
    assert!(!entry_precedes(&entry("a.txt", 0), &entry("a/z", 9)));
    assert!(entry_precedes(&entry("a", 1), &entry("a", 2)));
    assert!(!entry_precedes(&entry("a", 2), &entry("a", 1)));
    assert!(entry_precedes(&entry("a", 1), &entry("a", 1)));
    assert!(entry_precedes(&entry("a", 0x2e), &entry("a", 0x2f)));
}

#[test]
fn sort_entries_gives_canonical_order() {
    let given = vec![
        entry("b", 0),
        entry("a/z", 0),
        entry("a", 0),
        entry("a.txt", 0),
        entry("A", 0),
        entry("", 0),
    ];
    let sorted = sort_entries(given);
    assert_eq!(paths_of(&sorted), vec!["", "A", "a", "a/z", "a.txt", "b"]);
}

#[test]
fn sort_entries_keeps_a_directory_together() {
    let given = vec![
        entry("docs.txt", 0),
        entry("docs/readme.md", 0),
        entry("docs-old/readme.md", 0),
        entry("docs/a/b", 0),
    ];
    let sorted = sort_entries(given);
    assert_eq!(
        paths_of(&sorted),
        vec!["docs/a/b", "docs/readme.md", "docs-old/readme.md", "docs.txt"]
    );
}

#[test]
fn sort_entries_keeps_every_entry() {
    let given = vec![entry("x", 2), entry("x", 1), entry("x", 2), entry("w", 7)];
    let sorted = sort_entries(given);
    assert_eq!(sorted, vec![entry("w", 7), entry("x", 1), entry("x", 2), entry("x", 2)]);
}

#[test]
fn sort_entries_of_nothing_and_of_one() {
    assert_eq!(sort_entries(Vec::new()), Vec::new());
    assert_eq!(sort_entries(vec![entry("only", 3)]), vec![entry("only", 3)]);
}

#[test]
fn sort_entries_of_many() {
    let marks = ["", ".d", "-x", " y", "0"];
    let mut given = Vec::new();
    let mut n: u32 = 7;
    for _ in 0..1000 {
        n = n.wrapping_mul(1103515245).wrapping_add(12345);
        let fill = u8::try_from(n % 5).unwrap();
        let mark = marks[usize::try_from(n % 5).unwrap()];
        given.push(entry(&format!("dir{}{}/file{}", n % 13, mark, n % 101), fill));
    }
    let mut expected = given.clone();
    expected.sort_by_key(|e| (components_of(&e.path), e.content_hash));
    assert_eq!(sort_entries(given), expected);
}
