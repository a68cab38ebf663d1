use org_sync::dht::{
    add_to_dht, check_col_from_version, delete_from_version, disk_hash, hash_of, path_to_hash, DhtEntry,
};
use org_sync::handlers::trigger_check_version;
use org_sync::types::FilePath;

fn file(home: &str, full: &str) -> FilePath {
    FilePath { home: home.to_string(), full: full.to_string() }
}

#[test]
fn sub_home_takes_the_home_directory_out() {
    assert_eq!(file("/home/u", "/home/u/notes/a.txt").sub_home(), "/notes/a.txt");
}

#[test]
fn sub_home_takes_only_the_leading_home_out() {
    assert_eq!(file("/a", "/a/a/x").sub_home(), "/a/x");
    assert_eq!(file("/a", "/a/x").sub_home(), "/x");
    assert_eq!(file("ab", "abxabyab").sub_home(), "xabyab");
    assert_eq!(file("aa", "aaa").sub_home(), "a");
    // A home directory further down in the path stays.
    assert_eq!(file("ab", "xabyabz").sub_home(), "xabyabz");
}

#[test]
fn files_under_one_home_have_keys_of_their_own() {
    let a = file("/a", "/a/a/x");
    let b = file("/a", "/a/x");
    assert_eq!(a.to_bytes(), b"/a/x".to_vec());
    assert_eq!(b.to_bytes(), b"/x".to_vec());
    assert_ne!(a.to_bytes(), b.to_bytes());
}

#[test]
fn sub_home_of_the_home_itself_is_empty() {
    assert_eq!(file("/home/u", "/home/u").sub_home(), "");
}

#[test]
fn sub_home_with_an_empty_home_is_the_full_path() {
    assert_eq!(file("", "/notes/a.txt").sub_home(), "/notes/a.txt");
}

#[test]
fn sub_home_without_a_match_is_the_full_path() {
    assert_eq!(file("/home/v", "/home/u/a").sub_home(), "/home/u/a");
    assert_eq!(file("/home/u/long", "/home").sub_home(), "/home");
}

#[test]
fn sub_home_with_text_beyond_ascii() {
    assert_eq!(file("/h\u{f6}me", "/h\u{f6}me/\u{4e16}.txt").sub_home(), "/\u{4e16}.txt");
}

#[test]
fn to_path_is_the_full_path() {
    assert_eq!(file("/home/u", "/home/u/notes/a.txt").to_path(), "/home/u/notes/a.txt");
}

#[test]
fn to_bytes_is_the_relative_path_in_utf8() {
    assert_eq!(file("/home/u", "/home/u/notes/a.txt").to_bytes(), b"/notes/a.txt".to_vec());
    assert_eq!(file("/h", "/h/\u{e9}").to_bytes(), vec![b'/', 0xc3, 0xa9]);
}

#[test]
fn same_relative_path_same_key_on_every_peer() {
    let on_a = file("/home/alice", "/home/alice/notes/a.txt");
    let on_b = file("/Users/bob", "/Users/bob/notes/a.txt");
    assert_eq!(on_a.to_bytes(), on_b.to_bytes());
}

#[test]
fn hash_of_known_vector() {
    // SHA-256 of "abc".
    assert_eq!(hash_of(b"abc", b""), "ba7816bf8f01cfea414140de5dae2223b00361a396177a9cb410ff61f20015ad");
    assert_eq!(hash_of(b"", b"abc"), "ba7816bf8f01cfea414140de5dae2223b00361a396177a9cb410ff61f20015ad");
    assert_eq!(hash_of(b"a", b"bc"), "ba7816bf8f01cfea414140de5dae2223b00361a396177a9cb410ff61f20015ad");
}

#[test]
fn path_to_hash_is_over_key_then_content() {
    let h = path_to_hash(file("/home/u", "/home/u/a.txt"), Some(b"hello".to_vec()));
    assert_eq!(h, Some("784f7633340d75687194d43db65c01361a2a2d399fa85ca3b3df5c128abfab42".to_string()));
    assert_eq!(h, Some(sha256::digest(b"/a.txthello".as_slice())));
}

#[test]
fn path_to_hash_without_content_is_nothing() {
    assert_eq!(path_to_hash(file("/home/u", "/home/u/a.txt"), None), None);
}

#[test]
fn hash_is_deterministic() {
    let a = path_to_hash(file("/home/u", "/home/u/a.txt"), Some(b"hello".to_vec()));
    let b = path_to_hash(file("/home/u", "/home/u/a.txt"), Some(b"hello".to_vec()));
    let c = path_to_hash(file("/other", "/other/a.txt"), Some(b"hello".to_vec()));
    assert_eq!(a, b);
    assert_eq!(a, c);
}

#[test]
fn hash_changes_with_path_and_with_content() {
    let base = path_to_hash(file("/h", "/h/a.txt"), Some(b"hello".to_vec()));
    let other_path = path_to_hash(file("/h", "/h/b.txt"), Some(b"hello".to_vec()));
    let other_content = path_to_hash(file("/h", "/h/a.txt"), Some(b"hellp".to_vec()));
    let empty = path_to_hash(file("/h", "/h/a.txt"), Some(vec![]));
    assert_ne!(base, other_path);
    assert_ne!(base, other_content);
    assert_ne!(base, empty);
    assert_ne!(other_path, other_content);
}

#[test]
fn disk_hash_marks_a_missing_file() {
    assert_eq!(disk_hash(b"/a.txt", &None), "no_file");
    assert_eq!(
        disk_hash(b"/a.txt", &Some(b"hello".to_vec())),
        "784f7633340d75687194d43db65c01361a2a2d399fa85ca3b3df5c128abfab42"
    );
    assert_eq!(disk_hash(b"/a.txt", &Some(vec![])).len(), 64);
}

#[test]
fn add_to_dht_builds_the_overlay_record() {
    let entry = DhtEntry { current: "h1".to_string(), previous: None, timestamp: 5 };
    let record = add_to_dht("/notes/a.txt".to_string(), entry);
    assert_eq!(record.key, b"/notes/a.txt".to_vec());
    assert_eq!(record.value, b"d7:current2:h18:previousle9:timestampi5ee".to_vec());
}

#[test]
fn version_keys() {
    assert_eq!(check_col_from_version("7".to_string(), "patch".to_string()), "versions:patch:7");
    assert_eq!(check_col_from_version("colidx".to_string(), "col".to_string()), "versions:col:colidx");
    // The index is put in for every `idx` of what results, also inside the
    // column's name.
    assert_eq!(check_col_from_version("9".to_string(), "idx".to_string()), "versions:9:9");
    assert_eq!(
        delete_from_version("42".to_string()),
        vec![
            "versions:current_version:42".to_string(),
            "versions:timestamp:42".to_string(),
            "versions:previous_version:42".to_string(),
            "versions:patch:42".to_string(),
            "versions:locations:42".to_string(),
        ]
    );
}

#[test]
fn version_check_key() {
    assert_eq!(trigger_check_version(), b"version".to_vec());
}
