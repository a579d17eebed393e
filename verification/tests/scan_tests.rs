use dir_reconcile::checksum::{ChecksumGenerator, HashAlgorithm};
use dir_reconcile::file_result::Timestamp;
use dir_reconcile::scan::{relative_path, EntryKind, ScanAction, ScanEntry, Scanner};

const MD5: ChecksumGenerator = ChecksumGenerator { algorithm: HashAlgorithm::Md5 };
const SHA1: ChecksumGenerator = ChecksumGenerator { algorithm: HashAlgorithm::Sha1 };
const MD5_OF_NOTHING: &str = "d41d8cd98f00b204e9800998ecf8427e";
const MD5_OF_HELLO: &str = "5d41402abc4b2a76b9719d911017c592";
const MD5_OF_HELLO_WORLD: &str = "5eb63bbbe01eeed093cb22bb8f5acdc3";

fn entry(path: &str, kind: EntryKind) -> ScanEntry {
    ScanEntry { path: path.to_string(), kind }
}

fn asks_to_list(scanner: &Scanner, path: &str) -> bool {
    matches!(scanner.action(), ScanAction::ListDirectory(p) if p == path)
}

fn asks_to_read(scanner: &Scanner, path: &str) -> bool {
    matches!(scanner.action(), ScanAction::ReadFile(p) if p == path)
}

#[test]
fn the_root_and_its_separator_are_stripped() {
    assert_eq!(relative_path("/data/a", "/data/a/x.txt"), "x.txt");
    assert_eq!(relative_path("/data/a", "/data/a/sub/deep/x.txt"), "sub/deep/x.txt");
    assert_eq!(relative_path("", "x.txt"), "x.txt");
    assert_eq!(relative_path("", "/x.txt"), "x.txt");
}

#[test]
fn backslashes_become_slashes() {
    assert_eq!(relative_path("C:\\data", "C:\\data\\sub\\x.txt"), "sub/x.txt");
    assert_eq!(relative_path("/r", "/r/a\\b"), "a/b");
}

#[test]
fn a_root_that_ends_in_a_separator_loses_no_character_of_the_name() {
    assert_eq!(relative_path("/", "/x.txt"), "x.txt");
    assert_eq!(relative_path("/data/", "/data/x.txt"), "x.txt");
}

#[test]
fn only_one_separator_is_taken_from_the_front() {
    assert_eq!(relative_path("/r", "/r//x"), "/x");
    assert_eq!(relative_path("/r", "/rx/y"), "x/y");
}

#[test]
fn a_path_no_longer_than_the_root_has_nothing_left() {
    assert_eq!(relative_path("/data/a", "/data/a"), "");
    assert_eq!(relative_path("/data/a", "/data/a/"), "");
    assert_eq!(relative_path("/data/a", "/d"), "");
    assert_eq!(relative_path("/data/a", ""), "");
}

#[test]
fn the_root_is_measured_in_characters() {
    assert_eq!(relative_path("/\u{e9}t\u{e9}", "/\u{e9}t\u{e9}/\u{fc}ber.txt"), "\u{fc}ber.txt");
}

#[test]
fn a_scan_walks_depth_first_and_records_each_file() {
    let mut scanner = Scanner::new("/root".to_string(), &MD5);
    assert!(asks_to_list(&scanner, "/root"));
    assert!(scanner.listed(vec![
        entry("/root/b.txt", EntryKind::File),
        entry("/root/link", EntryKind::Other),
        entry("/root/sub", EntryKind::Directory),
        entry("/root/a.txt", EntryKind::File),
    ]));
    assert!(asks_to_read(&scanner, "/root/b.txt"));
    assert!(scanner.file_block(b"hello"));
    assert!(scanner.file_read(5, Timestamp::new(20, 0)));
    assert!(asks_to_list(&scanner, "/root/sub"));
    assert!(scanner.listed(vec![
        entry("/root/sub/socket", EntryKind::Other),
        entry("/root/sub/c.txt", EntryKind::File),
    ]));
    assert!(asks_to_read(&scanner, "/root/sub/c.txt"));
    assert!(scanner.file_block(b"hello"));
    assert!(scanner.file_block(b""));
    assert!(scanner.file_block(b" world"));
    assert!(scanner.file_read(11, Timestamp::new(30, 0)));
    assert!(asks_to_read(&scanner, "/root/a.txt"));
    assert!(scanner.file_read(0, Timestamp::new(10, 0)));
    assert!(matches!(scanner.action(), ScanAction::Finish));
    let results = scanner.into_result().expect("a finished scan has a result");
    let found: Vec<(&str, &str, u64, i64)> = results
        .records()
        .iter()
        .map(|r| (r.filepath.as_str(), r.hash.as_str(), r.size, r.time_modified.secs))
        .collect();
    assert_eq!(
        found,
        vec![
            ("a.txt", MD5_OF_NOTHING, 0, 10),
            ("b.txt", MD5_OF_HELLO, 5, 20),
            ("sub/c.txt", MD5_OF_HELLO_WORLD, 11, 30),
        ]
    );
}

#[test]
fn the_bytes_of_one_file_do_not_reach_the_next() {
    let mut scanner = Scanner::new("/r".to_string(), &SHA1);
    assert!(scanner.listed(vec![entry("/r/1", EntryKind::File), entry("/r/2", EntryKind::File)]));
    assert!(scanner.file_block(b"something else"));
    assert!(scanner.file_read(14, Timestamp::new(0, 0)));
    assert!(scanner.file_block(b"hello"));
    assert!(scanner.file_read(5, Timestamp::new(0, 0)));
    let results = scanner.into_result().expect("a finished scan has a result");
    assert_eq!(
        results.get("2").map(|r| r.hash.as_str()),
        Some("aaf4c61ddcc5e8a2dabede0f3b482cd9aea9434d")
    );
    assert_ne!(
        results.get("1").map(|r| r.hash.as_str()),
        Some("aaf4c61ddcc5e8a2dabede0f3b482cd9aea9434d")
    );
}

#[test]
fn an_empty_root_gives_an_empty_result() {
    let mut scanner = Scanner::new("/empty".to_string(), &MD5);
    assert!(scanner.listed(vec![]));
    assert!(matches!(scanner.action(), ScanAction::Finish));
    assert_eq!(scanner.into_result().map(|r| r.len()), Some(0));
}

#[test]
fn a_root_of_other_things_only_gives_an_empty_result() {
    let mut scanner = Scanner::new("/dev".to_string(), &MD5);
    assert!(scanner
        .listed(vec![entry("/dev/null", EntryKind::Other), entry("/dev/tty", EntryKind::Other)]));
    assert!(matches!(scanner.action(), ScanAction::Finish));
    assert_eq!(scanner.into_result().map(|r| r.len()), Some(0));
}

#[test]
fn a_failure_gives_the_scan_up_with_path_and_cause() {
    let mut scanner = Scanner::new("/root".to_string(), &MD5);
    assert!(scanner
        .listed(vec![entry("/root/a.txt", EntryKind::File), entry("/root/b.txt", EntryKind::File)]));
    assert!(scanner.file_read(0, Timestamp::new(10, 0)));
    assert!(asks_to_read(&scanner, "/root/b.txt"));
    assert!(scanner.file_block(b"half"));
    assert!(scanner.failed("permission denied".to_string()));
    match scanner.action() {
        ScanAction::Abort(error) => {
            assert_eq!(error.path, "/root/b.txt");
            assert_eq!(error.cause, "permission denied");
        }
        other => panic!("expected the scan to be given up, got {:?}", other),
    }
    assert!(!scanner.failed("again".to_string()));
    assert!(!scanner.listed(vec![]));
    assert!(!scanner.file_block(b"more"));
    assert!(!scanner.file_read(0, Timestamp::new(0, 0)));
    match scanner.action() {
        ScanAction::Abort(error) => assert_eq!(error.cause, "permission denied"),
        other => panic!("expected the scan to be given up, got {:?}", other),
    }
    assert!(scanner.into_result().is_none());
}

#[test]
fn a_listing_that_fails_gives_the_scan_up() {
    let mut scanner = Scanner::new("/root".to_string(), &MD5);
    assert!(scanner.failed("not a directory".to_string()));
    match scanner.action() {
        ScanAction::Abort(error) => {
            assert_eq!(error.path, "/root");
            assert_eq!(error.cause, "not a directory");
        }
        other => panic!("expected the scan to be given up, got {:?}", other),
    }
}

#[test]
fn an_answer_that_was_not_asked_for_changes_nothing() {
    let mut scanner = Scanner::new("/root".to_string(), &MD5);
    assert!(!scanner.file_block(b"hello"));
    assert!(!scanner.file_read(0, Timestamp::new(0, 0)));
    assert!(asks_to_list(&scanner, "/root"));
    assert!(scanner.listed(vec![entry("/root/a", EntryKind::File)]));
    assert!(!scanner.listed(vec![entry("/root/b", EntryKind::File)]));
    assert!(asks_to_read(&scanner, "/root/a"));
    assert!(scanner.file_block(b"hello"));
    assert!(scanner.file_read(5, Timestamp::new(0, 0)));
    assert!(matches!(scanner.action(), ScanAction::Finish));
    assert!(!scanner.failed("late".to_string()));
    let results = scanner.into_result().expect("a finished scan has a result");
    assert_eq!(results.len(), 1);
    assert_eq!(results.get("a").map(|r| r.hash.as_str()), Some(MD5_OF_HELLO));
}

#[test]
fn a_scan_under_way_has_no_result() {
    let scanner = Scanner::new("/root".to_string(), &MD5);
    assert!(scanner.into_result().is_none());
}
