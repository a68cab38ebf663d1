use org_sync::dht::DhtEntry;
use org_sync::netcommand::CliCommand;
use org_sync::netexchange::ResponseData;
use org_sync::netmessages::{from_bytes, to_bytes, Messages};
use org_sync::types::FilePath;
use serde::de::IgnoredAny;
use serde::ser::{SerializeStruct, SerializeStructVariant};
use serde::{Serialize, Serializer};
use std::collections::HashMap;

// The same shapes with a hand-written `Serialize`, to hold the library's wire
// forms against what bendy writes for them.
struct WireEntry {
    current: String,
    previous: Option<String>,
    timestamp: i64,
}

impl Serialize for WireEntry {
    fn serialize<S: Serializer>(&self, serializer: S) -> Result<S::Ok, S::Error> {
        let mut st = serializer.serialize_struct("DhtEntry", 3)?;
        st.serialize_field("current", &self.current)?;
        st.serialize_field("previous", &self.previous)?;
        st.serialize_field("timestamp", &self.timestamp)?;
        st.end()
    }
}

struct WireFilePath {
    home: String,
    full: String,
}

impl Serialize for WireFilePath {
    fn serialize<S: Serializer>(&self, serializer: S) -> Result<S::Ok, S::Error> {
        let mut st = serializer.serialize_struct("FilePath", 2)?;
        st.serialize_field("home", &self.home)?;
        st.serialize_field("full", &self.full)?;
        st.end()
    }
}

struct WireCli {
    push: Option<String>,
}

impl Serialize for WireCli {
    fn serialize<S: Serializer>(&self, serializer: S) -> Result<S::Ok, S::Error> {
        let mut st = serializer.serialize_struct("CliCommand", 1)?;
        st.serialize_field("Push", &self.push)?;
        st.end()
    }
}

struct WireResponse {
    metadata: WireEntry,
    data: Vec<u8>,
}

impl Serialize for WireResponse {
    fn serialize<S: Serializer>(&self, serializer: S) -> Result<S::Ok, S::Error> {
        let mut st = serializer.serialize_struct("ResponseData", 2)?;
        st.serialize_field("metadata", &self.metadata)?;
        st.serialize_field("data", &self.data)?;
        st.end()
    }
}

enum WireMessage {
    Pushed { path: String, peerid: Vec<u8> },
    Added { path: String, peerid: Vec<u8> },
    Changed { path: String, patch: String, peerid: Vec<u8> },
    Removed { path: String, peerid: Vec<u8> },
    FileCheck { filepath: Vec<u8>, timestamp: i64 },
    FileUpdate { path: String, current: String, previous: String, timestamp: i64, data: Vec<u8> },
}

impl Serialize for WireMessage {
    fn serialize<S: Serializer>(&self, serializer: S) -> Result<S::Ok, S::Error> {
        match self {
            WireMessage::Pushed { path, peerid } => {
                let mut st = serializer.serialize_struct_variant("Messages", 0, "Pushed", 2)?;
                st.serialize_field("path", path)?;
                st.serialize_field("peerid", peerid)?;
                st.end()
            }
            WireMessage::Added { path, peerid } => {
                let mut st = serializer.serialize_struct_variant("Messages", 1, "Added", 2)?;
                st.serialize_field("path", path)?;
                st.serialize_field("peerid", peerid)?;
                st.end()
            }
            WireMessage::Changed { path, patch, peerid } => {
                let mut st = serializer.serialize_struct_variant("Messages", 2, "Changed", 3)?;
                st.serialize_field("path", path)?;
                st.serialize_field("patch", patch)?;
                st.serialize_field("peerid", peerid)?;
                st.end()
            }
            WireMessage::Removed { path, peerid } => {
                let mut st = serializer.serialize_struct_variant("Messages", 3, "Removed", 2)?;
                st.serialize_field("path", path)?;
                st.serialize_field("peerid", peerid)?;
                st.end()
            }
            WireMessage::FileCheck { filepath, timestamp } => {
                let mut st = serializer.serialize_struct_variant("Messages", 4, "FileCheck", 2)?;
                st.serialize_field("filepath", filepath)?;
                st.serialize_field("timestamp", timestamp)?;
                st.end()
            }
            WireMessage::FileUpdate { path, current, previous, timestamp, data } => {
                let mut st = serializer.serialize_struct_variant("Messages", 5, "FileUpdate", 5)?;
                st.serialize_field("path", path)?;
                st.serialize_field("current", current)?;
                st.serialize_field("previous", previous)?;
                st.serialize_field("timestamp", timestamp)?;
                st.serialize_field("data", data)?;
                st.end()
            }
        }
    }
}

fn entry(current: &str, previous: Option<&str>, timestamp: i64) -> DhtEntry {
    DhtEntry { current: current.to_string(), previous: previous.map(|p| p.to_string()), timestamp }
}

fn wire_entry(e: &DhtEntry) -> WireEntry {
    WireEntry { current: e.current.clone(), previous: e.previous.clone(), timestamp: e.timestamp }
}

fn sample_entries() -> Vec<DhtEntry> {
    vec![
        entry("abc", None, 42),
        entry("abc", Some("xyz"), -7),
        entry("", Some(""), 0),
        entry("no_file", None, i64::MAX),
        entry("h\u{e9}llo \u{1F600}", Some("\u{4e16}\u{754c}"), i64::MIN),
        entry("0123456789012345678901234567890123456789", None, 1_700_000_000),
        entry("x", Some("y"), -1),
        entry("x", Some("y"), 10),
        entry("x", Some("y"), -10),
        entry("x", Some("y"), 9),
    ]
}

fn sample_messages() -> Vec<Messages> {
    vec![
        Messages::Pushed { path: "/notes/a.txt".to_string(), peerid: vec![0, 1, 2, 255] },
        Messages::Added { path: "org".to_string(), peerid: vec![0, 1, 2, 3] },
        Messages::Added { path: "".to_string(), peerid: vec![] },
        Messages::Changed { path: "/a".to_string(), patch: "@@ -1 +1 @@".to_string(), peerid: vec![9] },
        Messages::Removed { path: "/d/\u{e9}.md".to_string(), peerid: vec![10, 100, 200] },
        Messages::FileCheck { filepath: b"d4:full2:/a4:home0:e".to_vec(), timestamp: -5 },
        Messages::FileCheck { filepath: vec![], timestamp: 0 },
        Messages::FileUpdate {
            path: "/p".to_string(),
            current: "c".to_string(),
            previous: "b".to_string(),
            timestamp: 123456789,
            data: vec![0, 127, 128, 255],
        },
    ]
}

fn wire_message(m: &Messages) -> WireMessage {
    match m {
        Messages::Pushed { path, peerid } => WireMessage::Pushed { path: path.clone(), peerid: peerid.clone() },
        Messages::Added { path, peerid } => WireMessage::Added { path: path.clone(), peerid: peerid.clone() },
        Messages::Changed { path, patch, peerid } => {
            WireMessage::Changed { path: path.clone(), patch: patch.clone(), peerid: peerid.clone() }
        }
        Messages::Removed { path, peerid } => WireMessage::Removed { path: path.clone(), peerid: peerid.clone() },
        Messages::FileCheck { filepath, timestamp } => {
            WireMessage::FileCheck { filepath: filepath.clone(), timestamp: *timestamp }
        }
        Messages::FileUpdate { path, current, previous, timestamp, data } => WireMessage::FileUpdate {
            path: path.clone(),
            current: current.clone(),
            previous: previous.clone(),
            timestamp: *timestamp,
            data: data.clone(),
        },
    }
}

fn copy_message(m: &Messages) -> Messages {
    match wire_message(m) {
        WireMessage::Pushed { path, peerid } => Messages::Pushed { path, peerid },
        WireMessage::Added { path, peerid } => Messages::Added { path, peerid },
        WireMessage::Changed { path, patch, peerid } => Messages::Changed { path, patch, peerid },
        WireMessage::Removed { path, peerid } => Messages::Removed { path, peerid },
        WireMessage::FileCheck { filepath, timestamp } => Messages::FileCheck { filepath, timestamp },
        WireMessage::FileUpdate { path, current, previous, timestamp, data } => {
            Messages::FileUpdate { path, current, previous, timestamp, data }
        }
    }
}

#[test]
fn entry_wire_form_without_previous() {
    let e = entry("abc", None, 42);
    assert_eq!(e.to_bytes(), b"d7:current3:abc8:previousle9:timestampi42ee".to_vec());
}

#[test]
fn entry_wire_form_with_previous_and_negative_time() {
    let e = entry("abc", Some("xyz"), -7);
    assert_eq!(e.to_bytes(), b"d7:current3:abc8:previousl3:xyze9:timestampi-7ee".to_vec());
}

#[test]
fn entry_wire_form_is_what_bendy_writes() {
    for e in sample_entries() {
        assert_eq!(e.to_bytes(), bendy::serde::to_bytes(&wire_entry(&e)).unwrap());
    }
}

#[test]
fn entry_round_trip() {
    for e in sample_entries() {
        assert_eq!(DhtEntry::from_bytes(e.to_bytes()), Some(e));
    }
}

#[test]
fn entry_reads_what_bendy_writes() {
    for e in sample_entries() {
        let bytes = bendy::serde::to_bytes(&wire_entry(&e)).unwrap();
        assert_eq!(DhtEntry::from_bytes(bytes), Some(e));
    }
}

#[test]
fn entry_extreme_times() {
    let low = entry("a", None, i64::MIN);
    assert_eq!(low.to_bytes(), b"d7:current1:a8:previousle9:timestampi-9223372036854775808ee".to_vec());
    let high = entry("a", None, i64::MAX);
    assert_eq!(high.to_bytes(), b"d7:current1:a8:previousle9:timestampi9223372036854775807ee".to_vec());
    assert_eq!(DhtEntry::from_bytes(low.to_bytes()), Some(low));
    assert_eq!(DhtEntry::from_bytes(high.to_bytes()), Some(high));
}

#[test]
fn entry_malformed_bytes_are_refused() {
    let bad: Vec<&[u8]> = vec![
        b"",
        b"d",
        b"le",
        b"i42e",
        b"d7:current3:abc8:previousle9:timestampi42e",
        b"d7:current3:abc8:previousle9:timestampi42eee",
        b"d7:current3:abc8:previousle9:timestampi042ee",
        b"d7:current3:abc8:previousle9:timestampi-0ee",
        b"d7:current3:abc8:previousle9:timestampiee",
        b"d7:current3:abc8:previousle9:timestampi9223372036854775808ee",
        b"d7:current3:abc8:previousle9:timestampi-9223372036854775809ee",
        b"d7:current3:abc8:previousle9:timestampi99999999999999999999999ee",
        b"d7:current03:abc8:previousle9:timestampi42ee",
        b"d7:current4:abc8:previousle9:timestampi42ee",
        b"d7:current3:abc8:previousl3:xyz9:timestampi42ee",
        b"d7:current3:abc9:timestampi42ee",
        b"d8:previousle7:current3:abc9:timestampi42ee",
        b"d7:current1:\xff8:previousle9:timestampi42ee",
        b"d7:current3:abc8:previousle9:timestampi42e5:extra1:xe",
        b"d7:current3:abc8:previousle9:timestamp2:42e",
    ];
    for b in bad {
        assert_eq!(DhtEntry::from_bytes(b.to_vec()), None);
    }
}

#[test]
fn message_wire_forms() {
    let added = Messages::Added { path: "org".to_string(), peerid: vec![0, 1, 2, 3] };
    assert_eq!(to_bytes(added), b"d5:Addedd4:path3:org6:peeridli0ei1ei2ei3eeee".to_vec());
    let changed = Messages::Changed { path: "/a".to_string(), patch: "p".to_string(), peerid: vec![] };
    assert_eq!(to_bytes(changed), b"d7:Changedd5:patch1:p4:path2:/a6:peeridleee".to_vec());
    let check = Messages::FileCheck { filepath: vec![7], timestamp: -3 };
    assert_eq!(to_bytes(check), b"d9:FileCheckd8:filepathli7ee9:timestampi-3eee".to_vec());
}

#[test]
fn message_wire_form_is_what_bendy_writes() {
    for m in sample_messages() {
        let expected = bendy::serde::to_bytes(&wire_message(&m)).unwrap();
        assert_eq!(to_bytes(m), expected);
    }
}

#[test]
fn message_round_trip_every_variant() {
    for m in sample_messages() {
        let bytes = to_bytes(copy_message(&m));
        assert_eq!(from_bytes(bytes), Some(m));
    }
}

#[test]
fn message_malformed_bytes_are_refused() {
    let bad: Vec<&[u8]> = vec![
        b"",
        b"garbage",
        b"d5:Addedd4:path3:org6:peeridli0ei1ei2ei3eee",
        b"d5:Addedd4:path3:org6:peeridli0ei1ei2ei3eeeee",
        b"d5:Addedd4:path3:org6:peeridli256eeee",
        b"d5:Addedd4:path3:org6:peeridli-1eeee",
        b"d5:Addedd4:path3:org6:peeridli01eeee",
        b"d5:Addedd6:peeridle4:path3:orgee",
        b"d7:Unknownd4:path3:org6:peeridleee",
        b"d5:Added4:path3:org6:peeridlee",
    ];
    for b in bad {
        assert_eq!(from_bytes(b.to_vec()), None);
    }
}

#[test]
fn message_self_check_gives_the_sample_back() {
    assert_eq!(org_sync::netmessages::test(), Messages::Added { path: "org".to_string(), peerid: vec![0, 1, 2, 3] });
}

#[test]
fn file_path_wire_form_is_what_bendy_writes() {
    let f = FilePath { home: "/home/u".to_string(), full: "/home/u/notes/a.txt".to_string() };
    let wire = WireFilePath { home: f.home.clone(), full: f.full.clone() };
    assert_eq!(f.struct_to_bytes(), bendy::serde::to_bytes(&wire).unwrap());
    assert_eq!(f.struct_to_bytes(), b"d4:full19:/home/u/notes/a.txt4:home7:/home/ue".to_vec());
}

#[test]
fn file_path_round_trip() {
    let f = FilePath { home: "/home/\u{fc}".to_string(), full: "/home/\u{fc}/x".to_string() };
    let back = FilePath::struct_from_bytes(f.struct_to_bytes()).unwrap();
    assert_eq!(back.home, f.home);
    assert_eq!(back.full, f.full);
    assert!(FilePath::struct_from_bytes(b"d4:home1:a4:full1:be".to_vec()).is_none());
}

#[test]
fn cli_command_wire_form_and_round_trip() {
    let all = CliCommand { Push: None };
    assert_eq!(all.to_bytes(), b"d4:Pushlee".to_vec());
    assert_eq!(all.to_bytes(), bendy::serde::to_bytes(&WireCli { push: None }).unwrap());
    assert_eq!(CliCommand::from_bytes(all.to_bytes()), Some(all));

    let one = CliCommand { Push: Some("/notes/a.txt".to_string()) };
    assert_eq!(one.to_bytes(), b"d4:Pushl12:/notes/a.txtee".to_vec());
    assert_eq!(one.to_bytes(), bendy::serde::to_bytes(&WireCli { push: Some("/notes/a.txt".to_string()) }).unwrap());
    assert_eq!(CliCommand::from_bytes(one.to_bytes()), Some(one));

    assert_eq!(CliCommand::from_bytes(b"d4:pushlee".to_vec()), None);
    assert_eq!(CliCommand::from_bytes(b"d4:Push3:alle".to_vec()), None);
}

#[test]
fn push_without_path_is_not_a_push_of_the_path_all() {
    let none = CliCommand { Push: None };
    let named = CliCommand { Push: Some("all".to_string()) };
    assert_ne!(none.to_bytes(), named.to_bytes());
    assert_eq!(CliCommand::from_bytes(none.to_bytes()), Some(CliCommand { Push: None }));
    assert_eq!(CliCommand::from_bytes(named.to_bytes()), Some(CliCommand { Push: Some("all".to_string()) }));
}

#[test]
fn response_wire_form_and_round_trip() {
    let r = ResponseData { metadata: entry("h1", Some("h0"), 100), data: vec![1, 2, 3] };
    let wire = WireResponse { metadata: wire_entry(&r.metadata), data: r.data.clone() };
    assert_eq!(r.to_bytes(), bendy::serde::to_bytes(&wire).unwrap());
    assert_eq!(
        r.to_bytes(),
        b"d4:datali1ei2ei3ee8:metadatad7:current2:h18:previousl2:h0e9:timestampi100eee".to_vec()
    );
    assert_eq!(ResponseData::from_bytes(r.to_bytes()), Some(r));
    assert_eq!(ResponseData::from_bytes(b"d4:datalee".to_vec()), None);
}

#[test]
fn response_with_empty_file_round_trips() {
    let r = ResponseData { metadata: entry("h", None, 0), data: vec![] };
    assert_eq!(ResponseData::from_bytes(r.to_bytes()), Some(r));
}

#[test]
fn bendy_reads_what_the_library_writes() {
    for e in sample_entries() {
        assert!(bendy::serde::from_bytes::<IgnoredAny>(&e.to_bytes()).is_ok());
    }
    for m in sample_messages() {
        assert!(bendy::serde::from_bytes::<IgnoredAny>(&to_bytes(m)).is_ok());
    }
    let f = FilePath { home: "/home/u".to_string(), full: "/home/u/notes/a.txt".to_string() };
    let read: HashMap<String, String> = bendy::serde::from_bytes(&f.struct_to_bytes()).unwrap();
    assert_eq!(read.get("home"), Some(&"/home/u".to_string()));
    assert_eq!(read.get("full"), Some(&"/home/u/notes/a.txt".to_string()));
    let none: HashMap<String, Option<String>> =
        bendy::serde::from_bytes(&CliCommand { Push: None }.to_bytes()).unwrap();
    assert_eq!(none.get("Push"), Some(&None));
    let named: HashMap<String, Option<String>> =
        bendy::serde::from_bytes(&CliCommand { Push: Some("all".to_string()) }.to_bytes()).unwrap();
    assert_eq!(named.get("Push"), Some(&Some("all".to_string())));
}
