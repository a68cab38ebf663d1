use org_sync::fileset::{bytes_eq, TrackedFiles};
use org_sync::ledger::PendingTransferLedger;
use org_sync::types::FilePath;

#[test]
fn ledger_starts_empty() {
    let ledger = PendingTransferLedger::new();
    assert_eq!(ledger.len(), 0);
    assert!(!ledger.contains(&"/a".to_string()));
}

#[test]
fn ledger_insert_then_remove() {
    let mut ledger = PendingTransferLedger::new();
    ledger.insert("/a".to_string());
    ledger.insert("/b".to_string());
    assert!(ledger.contains(&"/a".to_string()));
    assert!(ledger.contains(&"/b".to_string()));
    assert!(!ledger.contains(&"/c".to_string()));
    assert_eq!(ledger.len(), 2);
    let mut pending = ledger.pending();
    pending.sort();
    assert_eq!(pending, vec!["/a".to_string(), "/b".to_string()]);
    assert!(ledger.remove(&"/a".to_string()));
    assert!(!ledger.contains(&"/a".to_string()));
    assert!(ledger.contains(&"/b".to_string()));
    assert_eq!(ledger.len(), 1);
    assert!(!ledger.remove(&"/a".to_string()));
    assert_eq!(ledger.len(), 1);
}

#[test]
fn ledger_insert_is_idempotent() {
    let mut ledger = PendingTransferLedger::new();
    ledger.insert("/a".to_string());
    ledger.insert("/a".to_string());
    assert_eq!(ledger.len(), 1);
    assert!(ledger.remove(&"/a".to_string()));
    assert!(!ledger.contains(&"/a".to_string()));
    assert_eq!(ledger.len(), 0);
}

#[test]
fn files_are_found_by_key() {
    let mut files = TrackedFiles::new();
    assert_eq!(files.len(), 0);
    files.insert(FilePath { home: "/h".to_string(), full: "/h/a.txt".to_string() });
    files.insert(FilePath { home: "/h".to_string(), full: "/h/b.txt".to_string() });
    assert_eq!(files.len(), 2);
    assert_eq!(files.get(b"/a.txt").unwrap().full, "/h/a.txt");
    assert_eq!(files.get(b"/b.txt").unwrap().full, "/h/b.txt");
    assert!(files.get(b"/c.txt").is_none());
    assert_eq!(files.key_at(1), &b"/b.txt".to_vec());
    assert_eq!(files.file_at(0).full, "/h/a.txt");
}

#[test]
fn a_later_file_takes_the_place_of_an_earlier_one_with_its_key() {
    let mut files = TrackedFiles::new();
    files.insert(FilePath { home: "/h".to_string(), full: "/h/a.txt".to_string() });
    files.insert(FilePath { home: "/other".to_string(), full: "/other/a.txt".to_string() });
    assert_eq!(files.len(), 1);
    assert_eq!(files.get(b"/a.txt").unwrap().home, "/other");
}

#[test]
fn bytes_are_compared_in_full() {
    assert!(bytes_eq(b"", b""));
    assert!(bytes_eq(b"abc", b"abc"));
    assert!(!bytes_eq(b"abc", b"abd"));
    assert!(!bytes_eq(b"abc", b"ab"));
    assert!(!bytes_eq(b"", b"a"));
}
