use org_sync::dht::{disk_hash, DhtEntry, Record};
use org_sync::fileset::TrackedFiles;
use org_sync::ledger::PendingTransferLedger;
use org_sync::netcommand::{CliCommand, Command};
use org_sync::netevent::{
    decode_replies, get_record, key_of_event, key_of_lookup, key_of_message, notice_actions,
    replies_disagree, select_latest, Action, GetRecordResult, NetworkEvent, Notice, Peer, PeerRecord, Snapshot,
    SwarmEvent,
};
use org_sync::netexchange::ResponseData;
use org_sync::netmessages::{from_bytes, to_bytes, Messages};
use org_sync::types::FilePath;

const NOW: i64 = 1_000;

fn entry(current: &str, previous: Option<&str>, timestamp: i64) -> DhtEntry {
    DhtEntry { current: current.to_string(), previous: previous.map(|p| p.to_string()), timestamp }
}

fn engine() -> NetworkEvent {
    NetworkEvent::new(b"me".to_vec(), PendingTransferLedger::new(), TrackedFiles::new())
}

fn nothing() -> Snapshot {
    Snapshot { stored: None, content: None, declared_previous: None }
}

fn reply(peer: Option<&[u8]>, key: &[u8], e: &DhtEntry) -> PeerRecord {
    PeerRecord { peer: peer.map(|p| p.to_vec()), key: key.to_vec(), value: e.to_bytes() }
}

fn file(home: &str, full: &str) -> FilePath {
    FilePath { home: home.to_string(), full: full.to_string() }
}

fn report(notice: Notice) -> Action {
    Action::Report { notice }
}

#[test]
fn startup_and_sync_run_the_sweep() {
    let files = vec![file("/h", "/h/a.txt")];
    let mut swept = engine();
    let expected = swept.add_peer_check(&files, NOW);
    let mut started = engine();
    assert_eq!(started.startup_check(&files, NOW), expected);
    assert_eq!(started.key_2_filepath.len(), 1);
    let mut synced = engine();
    assert_eq!(synced.sync(&files, NOW), expected);
    assert_eq!(synced.key_2_filepath.len(), 1);
}

#[test]
fn every_file_of_a_walk_is_tracked_under_its_own_key() {
    let mut e = engine();
    let files = vec![file("/a", "/a/a/x"), file("/a", "/a/x"), file("/a", "/a/a/a/x")];
    e.update_filepaths(&files);
    assert_eq!(e.key_2_filepath.len(), 3);
    assert_eq!(e.key_2_filepath.get(b"/a/x").unwrap().full, "/a/a/x");
    assert_eq!(e.key_2_filepath.get(b"/x").unwrap().full, "/a/x");
    assert_eq!(e.key_2_filepath.get(b"/a/a/x").unwrap().full, "/a/a/a/x");
}

#[test]
fn new_engine_is_idle() {
    let e = engine();
    assert_eq!(e.local_peer, b"me".to_vec());
    assert_eq!(e.transfer_pending.len(), 0);
    assert_eq!(e.key_2_filepath.len(), 0);
    assert!(e.dirs.is_empty());
}

#[test]
fn highest_time_wins_and_the_last_of_equals() {
    let records = vec![
        reply(Some(b"p1"), b"/a", &entry("A", None, 10)),
        reply(Some(b"p2"), b"/a", &entry("B", None, 30)),
        PeerRecord { peer: Some(b"p3".to_vec()), key: b"/a".to_vec(), value: b"junk".to_vec() },
        reply(Some(b"p4"), b"/a", &entry("C", None, 30)),
        reply(Some(b"p5"), b"/a", &entry("D", None, 20)),
    ];
    let entries = decode_replies(&records);
    assert_eq!(entries[2], None);
    assert_eq!(entries[1], Some(entry("B", None, 30)));
    assert_eq!(select_latest(&entries), Some(3));
    assert!(replies_disagree(&entries));
}

#[test]
fn replies_that_agree_are_not_reported() {
    let records = vec![
        reply(Some(b"p1"), b"/a", &entry("A", None, 10)),
        reply(Some(b"p2"), b"/a", &entry("A", Some("Z"), 10)),
        reply(Some(b"p3"), b"/a", &entry("B", None, 11)),
    ];
    let entries = decode_replies(&records);
    assert!(!replies_disagree(&entries));
    assert_eq!(select_latest(&entries), Some(2));
}

#[test]
fn no_reply_with_a_record() {
    let records = vec![PeerRecord { peer: None, key: b"/a".to_vec(), value: vec![] }];
    let entries = decode_replies(&records);
    assert_eq!(select_latest(&entries), None);
    assert_eq!(select_latest(&vec![]), None);
    let result = GetRecordResult::Found { records };
    assert_eq!(key_of_lookup(&result), None);
    assert_eq!(get_record(&result, &nothing(), NOW), vec![report(Notice::NoUsableReply)]);
}

#[test]
fn lookup_key_is_that_of_the_reply_to_go_by() {
    let result = GetRecordResult::Found {
        records: vec![
            reply(Some(b"p1"), b"/old", &entry("A", None, 10)),
            reply(Some(b"p2"), b"/new", &entry("B", None, 30)),
        ],
    };
    assert_eq!(key_of_lookup(&result), Some(b"/new".to_vec()));
    assert_eq!(key_of_lookup(&GetRecordResult::NotFound { key: b"/k".to_vec() }), Some(b"/k".to_vec()));
    assert_eq!(key_of_lookup(&GetRecordResult::Timeout { key: b"/t".to_vec() }), Some(b"/t".to_vec()));
    assert_eq!(key_of_lookup(&GetRecordResult::QuorumFailed { key: b"/q".to_vec() }), Some(b"/q".to_vec()));
}

#[test]
fn lookup_not_found_bootstraps_both_stores() {
    let key = b"/a.txt".to_vec();
    let snapshot = Snapshot { stored: None, content: Some(b"hello".to_vec()), declared_previous: None };
    let actions = get_record(&GetRecordResult::NotFound { key: key.clone() }, &snapshot, NOW);
    let hash = disk_hash(&key, &snapshot.content);
    let value = entry(&hash, None, NOW).to_bytes();
    assert_eq!(
        actions,
        vec![
            Action::StorePut { key: key.clone(), value: value.clone() },
            Action::OverlayPut { key, value },
        ]
    );
}

#[test]
fn lookup_not_found_without_file_does_nothing() {
    let actions = get_record(&GetRecordResult::NotFound { key: b"/a.txt".to_vec() }, &nothing(), NOW);
    assert_eq!(actions, vec![]);
}

#[test]
fn failed_lookups_are_reported() {
    let key = b"/a.txt".to_vec();
    assert_eq!(
        get_record(&GetRecordResult::QuorumFailed { key: key.clone() }, &nothing(), NOW),
        vec![report(Notice::QuorumFailed)]
    );
    assert_eq!(
        get_record(&GetRecordResult::Timeout { key }, &nothing(), NOW),
        vec![report(Notice::LookupTimeout)]
    );
}

#[test]
fn newer_remote_is_requested_from_its_peer() {
    let key = b"/a.txt".to_vec();
    let content = Some(b"mine".to_vec());
    let mine = entry(&disk_hash(&key, &content), None, 50);
    let theirs = entry("THEIRS", None, 100);
    let result = GetRecordResult::Found { records: vec![reply(Some(b"peer-a"), &key, &theirs)] };
    let snapshot = Snapshot { stored: Some(mine.to_bytes()), content, declared_previous: None };
    assert_eq!(
        get_record(&result, &snapshot, NOW),
        vec![Action::RequestFile { peer: b"peer-a".to_vec(), key }]
    );
}

#[test]
fn a_request_needs_a_peer() {
    let key = b"/a.txt".to_vec();
    let theirs = entry("THEIRS", None, 100);
    let result = GetRecordResult::Found { records: vec![reply(None, &key, &theirs)] };
    assert_eq!(get_record(&result, &nothing(), NOW), vec![report(Notice::NoPeerToAsk)]);
}

#[test]
fn conflict_is_reported_and_writes_nothing() {
    let key = b"/a.txt".to_vec();
    let content = Some(b"mine".to_vec());
    let mine = entry(&disk_hash(&key, &content), None, 100);
    let theirs = entry("THEIRS", None, 100);
    let result = GetRecordResult::Found { records: vec![reply(Some(b"peer-a"), &key, &theirs)] };
    let snapshot = Snapshot { stored: Some(mine.to_bytes()), content, declared_previous: None };
    assert_eq!(get_record(&result, &snapshot, NOW), vec![report(Notice::TimestampConflict)]);
}

#[test]
fn disagreeing_replies_are_reported_first() {
    let key = b"/a.txt".to_vec();
    let result = GetRecordResult::Found {
        records: vec![
            reply(Some(b"p1"), &key, &entry("A", None, 30)),
            reply(Some(b"p2"), &key, &entry("B", None, 30)),
        ],
    };
    assert_eq!(
        get_record(&result, &nothing(), NOW),
        vec![report(Notice::RepliesDisagree), Action::RequestFile { peer: b"p2".to_vec(), key }]
    );
}

#[test]
fn local_wins_puts_to_the_overlay_only() {
    let key = b"/a.txt".to_vec();
    let content = Some(b"mine".to_vec());
    let hash = disk_hash(&key, &content);
    let mine = entry(&hash, None, 200);
    let theirs = entry("THEIRS", None, 100);
    let result = GetRecordResult::Found { records: vec![reply(Some(b"peer-a"), &key, &theirs)] };
    let snapshot = Snapshot { stored: Some(mine.to_bytes()), content, declared_previous: None };
    assert_eq!(
        get_record(&result, &snapshot, NOW),
        vec![Action::OverlayPut { key, value: entry(&hash, Some("THEIRS"), 200).to_bytes() }]
    );
}

#[test]
fn a_stored_value_that_is_no_record_counts_as_none() {
    let key = b"/a.txt".to_vec();
    let content = Some(b"mine".to_vec());
    let hash = disk_hash(&key, &content);
    let result = GetRecordResult::NotFound { key: key.clone() };
    let snapshot = Snapshot { stored: Some(b"junk".to_vec()), content, declared_previous: None };
    let value = entry(&hash, None, NOW).to_bytes();
    assert_eq!(
        get_record(&result, &snapshot, NOW),
        vec![Action::StorePut { key: key.clone(), value: value.clone() }, Action::OverlayPut { key, value }]
    );
}

#[test]
fn sweep_looks_each_file_up_and_probes() {
    let mut e = engine();
    let files = vec![file("/h", "/h/a.txt"), file("/h", "/h/b.txt")];
    let actions = e.add_peer_check(&files, NOW);
    assert_eq!(
        actions,
        vec![
            Action::OverlayGet { key: b"/a.txt".to_vec() },
            Action::Publish {
                data: to_bytes(Messages::FileCheck { filepath: files[0].struct_to_bytes(), timestamp: NOW })
            },
            Action::OverlayGet { key: b"/b.txt".to_vec() },
            Action::Publish {
                data: to_bytes(Messages::FileCheck { filepath: files[1].struct_to_bytes(), timestamp: NOW })
            },
        ]
    );
    assert_eq!(e.key_2_filepath.len(), 2);
    assert_eq!(e.key_2_filepath.get(b"/b.txt").unwrap().full, "/h/b.txt");
    assert_eq!(e.transfer_pending.len(), 0);
}

#[test]
fn new_peer_command_runs_the_sweep() {
    let mut e = engine();
    let files = vec![file("/h", "/h/a.txt")];
    let swept = e.handle_command(&Command::NewPeer, &files, NOW);
    assert_eq!(swept.len(), 2);
    assert_eq!(e.key_2_filepath.len(), 1);
    let other = e.handle_command(&Command::StartProviding { file_name: "x".to_string() }, &files, NOW);
    assert_eq!(other, vec![report(Notice::Unhandled)]);
}

#[test]
fn added_and_pushed_request_the_file_and_mark_the_path() {
    for pushed in [false, true] {
        let mut e = engine();
        let msg = if pushed {
            Messages::Pushed { path: "/a.txt".to_string(), peerid: b"origin".to_vec() }
        } else {
            Messages::Added { path: "/a.txt".to_string(), peerid: b"origin".to_vec() }
        };
        let actions = e.handle_message(&to_bytes(msg), &nothing(), NOW);
        assert_eq!(actions, vec![Action::RequestFile { peer: b"origin".to_vec(), key: b"/a.txt".to_vec() }]);
        assert!(e.transfer_pending.contains(&"/a.txt".to_string()));
    }
}

#[test]
fn changed_applies_the_patch_on_the_declared_base() {
    let mut e = engine();
    let content = Some(b"old".to_vec());
    let base = disk_hash(b"/a.txt", &content);
    let msg = Messages::Changed { path: "/a.txt".to_string(), patch: "P".to_string(), peerid: b"origin".to_vec() };
    let data = to_bytes(msg);
    let snapshot = Snapshot { stored: None, content: content.clone(), declared_previous: Some(base) };
    assert_eq!(
        e.handle_message(&data, &snapshot, NOW),
        vec![Action::ApplyPatch { path: "/a.txt".to_string(), patch: "P".to_string() }]
    );
    assert!(e.transfer_pending.contains(&"/a.txt".to_string()));

    let mut e = engine();
    let other = Snapshot { stored: None, content, declared_previous: Some("something else".to_string()) };
    assert_eq!(
        e.handle_message(&data, &other, NOW),
        vec![Action::RequestFile { peer: b"origin".to_vec(), key: b"/a.txt".to_vec() }]
    );
    assert!(e.transfer_pending.contains(&"/a.txt".to_string()));

    let mut e = engine();
    assert_eq!(
        e.handle_message(&data, &nothing(), NOW),
        vec![Action::RequestFile { peer: b"origin".to_vec(), key: b"/a.txt".to_vec() }]
    );
}

#[test]
fn removed_deletes_and_records_a_tombstone() {
    let mut e = engine();
    let msg = Messages::Removed { path: "/a.txt".to_string(), peerid: b"origin".to_vec() };
    let snapshot =
        Snapshot { stored: Some(entry("H", Some("G"), 5).to_bytes()), content: None, declared_previous: None };
    assert_eq!(
        e.handle_message(&to_bytes(msg), &snapshot, NOW),
        vec![
            Action::DeleteFile { path: "/a.txt".to_string() },
            Action::StorePut { key: b"/a.txt".to_vec(), value: entry("no_file", Some("H"), NOW).to_bytes() },
        ]
    );
    assert!(e.transfer_pending.contains(&"/a.txt".to_string()));
}

#[test]
fn file_check_looks_the_key_up_and_changes_nothing() {
    let mut e = engine();
    let probe =
        Messages::FileCheck { filepath: file("/elsewhere", "/elsewhere/a.txt").struct_to_bytes(), timestamp: 3 };
    assert_eq!(
        e.handle_message(&to_bytes(probe), &nothing(), NOW),
        vec![Action::OverlayGet { key: b"/a.txt".to_vec() }]
    );
    assert_eq!(e.transfer_pending.len(), 0);
    let broken = Messages::FileCheck { filepath: b"junk".to_vec(), timestamp: 3 };
    assert_eq!(e.handle_message(&to_bytes(broken), &nothing(), NOW), vec![report(Notice::MalformedMessage)]);
}

#[test]
fn malformed_and_unhandled_messages_change_nothing() {
    let mut e = engine();
    assert_eq!(e.handle_message(&b"junk".to_vec(), &nothing(), NOW), vec![report(Notice::MalformedMessage)]);
    let update = Messages::FileUpdate {
        path: "/a".to_string(),
        current: "c".to_string(),
        previous: "p".to_string(),
        timestamp: 1,
        data: vec![1],
    };
    assert_eq!(e.handle_message(&to_bytes(update), &nothing(), NOW), vec![report(Notice::Unhandled)]);
    assert_eq!(e.transfer_pending.len(), 0);
}

#[test]
fn message_keys() {
    let added = to_bytes(Messages::Added { path: "/a.txt".to_string(), peerid: vec![] });
    assert_eq!(key_of_message(&added), Some(b"/a.txt".to_vec()));
    let probe = to_bytes(Messages::FileCheck { filepath: vec![], timestamp: 0 });
    assert_eq!(key_of_message(&probe), None);
    assert_eq!(key_of_message(&b"junk".to_vec()), None);
    let event = SwarmEvent::Message { source: vec![], id: "1".to_string(), data: added };
    assert_eq!(key_of_event(&event), Some(b"/a.txt".to_vec()));
    assert_eq!(key_of_event(&SwarmEvent::FileRequested { key: b"/k".to_vec() }), Some(b"/k".to_vec()));
    assert_eq!(
        key_of_event(&SwarmEvent::FileReceived { key: b"/k".to_vec(), payload: vec![] }),
        Some(b"/k".to_vec())
    );
    assert_eq!(
        key_of_event(&SwarmEvent::GetRecord { result: GetRecordResult::NotFound { key: b"/n".to_vec() } }),
        Some(b"/n".to_vec())
    );
    assert_eq!(key_of_event(&SwarmEvent::PutRecordFailed), None);
}

#[test]
fn local_change_is_announced_and_recorded() {
    let mut e = engine();
    let content = Some(b"new".to_vec());
    let snapshot =
        Snapshot { stored: Some(entry("OLD", None, 5).to_bytes()), content: content.clone(), declared_previous: None };
    let home = "/h".to_string();
    let hash = disk_hash(b"/a.txt", &content);
    let value = entry(&hash, Some("OLD"), NOW).to_bytes();
    let cases = vec![
        (
            Command::EditFileAdd { path: "/h/a.txt".to_string() },
            Messages::Added { path: "/a.txt".to_string(), peerid: b"me".to_vec() },
        ),
        (
            Command::EditFileChange { path: "/h/a.txt".to_string() },
            Messages::Changed { path: "/a.txt".to_string(), patch: "P".to_string(), peerid: b"me".to_vec() },
        ),
        (
            Command::EditFileDelete { path: "/h/a.txt".to_string() },
            Messages::Removed { path: "/a.txt".to_string(), peerid: b"me".to_vec() },
        ),
    ];
    for (command, notice) in cases {
        let actions = e.handle_watch(&command, &home, &"P".to_string(), &snapshot, NOW);
        assert_eq!(
            actions,
            vec![
                Action::Publish { data: to_bytes(notice) },
                Action::StorePut { key: b"/a.txt".to_vec(), value: value.clone() },
                Action::OverlayPut { key: b"/a.txt".to_vec(), value: value.clone() },
            ]
        );
    }
}

#[test]
fn removed_file_is_recorded_as_no_file() {
    let mut e = engine();
    let snapshot = Snapshot { stored: Some(entry("OLD", None, 5).to_bytes()), content: None, declared_previous: None };
    let actions = e.handle_watch(
        &Command::EditFileDelete { path: "/h/a.txt".to_string() },
        &"/h".to_string(),
        &"".to_string(),
        &snapshot,
        NOW,
    );
    assert_eq!(
        actions[1],
        Action::StorePut { key: b"/a.txt".to_vec(), value: entry("no_file", Some("OLD"), NOW).to_bytes() }
    );
}

#[test]
fn echo_of_an_inbound_change_is_not_announced() {
    let mut e = engine();
    let msg = Messages::Added { path: "/a.txt".to_string(), peerid: b"origin".to_vec() };
    e.handle_message(&to_bytes(msg), &nothing(), NOW);
    let snapshot = Snapshot { stored: None, content: Some(b"new".to_vec()), declared_previous: None };
    let command = Command::EditFileAdd { path: "/h/a.txt".to_string() };
    let echo = e.handle_watch(&command, &"/h".to_string(), &"".to_string(), &snapshot, NOW);
    assert_eq!(echo, vec![]);
    assert!(!e.transfer_pending.contains(&"/a.txt".to_string()));
    // The next change at the path originates here again.
    let own = e.handle_watch(&command, &"/h".to_string(), &"".to_string(), &snapshot, NOW);
    assert_eq!(own.len(), 3);
    assert!(matches!(own[0], Action::Publish { .. }));
}

#[test]
fn echo_of_a_transfer_is_not_announced() {
    let mut e = engine();
    let response = ResponseData { metadata: entry("H", None, 9), data: b"bytes".to_vec() };
    let event = SwarmEvent::FileReceived { key: b"/a.txt".to_vec(), payload: response.to_bytes() };
    e.handle_swarm(&event, &nothing(), NOW);
    assert!(e.transfer_pending.contains(&"/a.txt".to_string()));
    let command = Command::EditFileChange { path: "/h/a.txt".to_string() };
    let echo = e.handle_watch(&command, &"/h".to_string(), &"".to_string(), &nothing(), NOW);
    assert_eq!(echo, vec![]);
    assert_eq!(e.transfer_pending.len(), 0);
}

#[test]
fn watcher_ignores_other_commands() {
    let mut e = engine();
    let actions = e.handle_watch(&Command::NewPeer, &"/h".to_string(), &"".to_string(), &nothing(), NOW);
    assert_eq!(actions, vec![report(Notice::Unhandled)]);
}

#[test]
fn discovered_peers_are_added_and_a_sweep_is_queued() {
    let mut e = engine();
    let peers = vec![
        Peer { id: b"p1".to_vec(), address: "/ip4/10.0.0.1/tcp/1".to_string() },
        Peer { id: b"p2".to_vec(), address: "/ip4/10.0.0.2/tcp/2".to_string() },
    ];
    assert_eq!(
        e.handle_swarm(&SwarmEvent::Discovered { peers: peers.clone() }, &nothing(), NOW),
        vec![
            Action::AddPeer { id: b"p1".to_vec(), address: "/ip4/10.0.0.1/tcp/1".to_string() },
            Action::AddPeer { id: b"p2".to_vec(), address: "/ip4/10.0.0.2/tcp/2".to_string() },
            Action::EnqueueNewPeer,
        ]
    );
    assert_eq!(
        e.handle_swarm(&SwarmEvent::Expired { peers }, &nothing(), NOW),
        vec![
            Action::RemovePeer { id: b"p1".to_vec(), address: "/ip4/10.0.0.1/tcp/1".to_string() },
            Action::RemovePeer { id: b"p2".to_vec(), address: "/ip4/10.0.0.2/tcp/2".to_string() },
        ]
    );
    assert_eq!(e.handle_swarm(&SwarmEvent::Discovered { peers: vec![] }, &nothing(), NOW), vec![Action::EnqueueNewPeer]);
}

#[test]
fn query_outcomes_are_reported() {
    let mut e = engine();
    let cases = vec![
        (SwarmEvent::NewListenAddr { address: "a".to_string() }, Notice::Listening),
        (SwarmEvent::GetProvidersOk { key: vec![], providers: vec![] }, Notice::ProvidersFound),
        (SwarmEvent::GetProvidersFailed, Notice::ProvidersFailed),
        (SwarmEvent::PutRecordOk { key: vec![] }, Notice::PutSucceeded),
        (SwarmEvent::PutRecordFailed, Notice::PutFailed),
        (SwarmEvent::StartProvidingOk { key: vec![] }, Notice::ProvidingSucceeded),
        (SwarmEvent::StartProvidingFailed, Notice::ProvidingFailed),
    ];
    for (event, notice) in cases {
        assert_eq!(e.handle_swarm(&event, &nothing(), NOW), vec![report(notice)]);
    }
    assert_eq!(e.handle_swarm(&SwarmEvent::Other, &nothing(), NOW), vec![]);
}

#[test]
fn file_request_is_answered_with_bytes_and_record() {
    let mut e = engine();
    let record = entry("H", None, 9);
    let snapshot =
        Snapshot { stored: Some(record.to_bytes()), content: Some(b"bytes".to_vec()), declared_previous: None };
    let event = SwarmEvent::FileRequested { key: b"/a.txt".to_vec() };
    assert_eq!(
        e.handle_swarm(&event, &snapshot, NOW),
        vec![Action::RespondFile { data: ResponseData { metadata: record, data: b"bytes".to_vec() }.to_bytes() }]
    );
    assert_eq!(e.handle_swarm(&event, &nothing(), NOW), vec![report(Notice::NothingToSend)]);
}

#[test]
fn file_response_is_written_and_recorded() {
    let mut e = engine();
    let record = entry("H", Some("G"), 9);
    let response = ResponseData { metadata: record.clone(), data: b"bytes".to_vec() };
    let event = SwarmEvent::FileReceived { key: b"/a.txt".to_vec(), payload: response.to_bytes() };
    assert_eq!(
        e.handle_swarm(&event, &nothing(), NOW),
        vec![
            Action::WriteFile { key: b"/a.txt".to_vec(), data: b"bytes".to_vec() },
            Action::StorePut { key: b"/a.txt".to_vec(), value: record.to_bytes() },
            Action::OverlayPut { key: b"/a.txt".to_vec(), value: record.to_bytes() },
        ]
    );
    let broken = SwarmEvent::FileReceived { key: b"/b.txt".to_vec(), payload: b"junk".to_vec() };
    assert_eq!(e.handle_swarm(&broken, &nothing(), NOW), vec![report(Notice::MalformedResponse)]);
    assert!(!e.transfer_pending.contains(&"/b.txt".to_string()));
}

#[test]
fn gossip_and_lookup_events_reach_their_handlers() {
    let mut e = engine();
    let data = to_bytes(Messages::Added { path: "/a.txt".to_string(), peerid: b"origin".to_vec() });
    let event = SwarmEvent::Message { source: b"relay".to_vec(), id: "7".to_string(), data };
    assert_eq!(
        e.handle_swarm(&event, &nothing(), NOW),
        vec![Action::RequestFile { peer: b"origin".to_vec(), key: b"/a.txt".to_vec() }]
    );
    assert!(e.transfer_pending.contains(&"/a.txt".to_string()));
    let lookup = SwarmEvent::GetRecord { result: GetRecordResult::Timeout { key: b"/a.txt".to_vec() } };
    assert_eq!(e.handle_swarm(&lookup, &nothing(), NOW), vec![report(Notice::LookupTimeout)]);
}

#[test]
fn push_all_and_push_one() {
    let mut e = engine();
    e.update_filepaths(&vec![file("/h", "/h/a.txt"), file("/h", "/h/b.txt"), file("/h", "/h/all")]);
    let store = vec![
        Record { key: b"/a.txt".to_vec(), value: entry("HA", None, 1).to_bytes() },
        Record { key: b"/untracked".to_vec(), value: entry("HU", None, 2).to_bytes() },
        Record { key: b"/b.txt".to_vec(), value: entry("HB", None, 3).to_bytes() },
        Record { key: b"/all".to_vec(), value: entry("HC", None, 4).to_bytes() },
    ];
    let pushed = |path: &str| Action::Publish {
        data: to_bytes(Messages::Pushed { path: path.to_string(), peerid: b"me".to_vec() }),
    };
    let put = |r: &Record| Action::OverlayPut { key: r.key.clone(), value: r.value.clone() };
    assert_eq!(
        e.handle_cli(&CliCommand { Push: None }, &store),
        vec![put(&store[0]), pushed("/a.txt"), put(&store[2]), pushed("/b.txt"), put(&store[3]), pushed("/all")]
    );
    assert_eq!(
        e.handle_cli(&CliCommand { Push: Some("/b.txt".to_string()) }, &store),
        vec![put(&store[2]), pushed("/b.txt")]
    );
    assert_eq!(e.handle_cli(&CliCommand { Push: Some("/c.txt".to_string()) }, &store), vec![]);
    // A path that happens to be named `all` is one path like any other.
    assert_eq!(e.handle_cli(&CliCommand { Push: Some("all".to_string()) }, &store), vec![]);
    assert_eq!(
        e.handle_cli(&CliCommand { Push: Some("/all".to_string()) }, &store),
        vec![put(&store[3]), pushed("/all")]
    );
}

#[test]
fn files_of_a_walk() {
    let e = engine();
    let entries = vec![
        ("/h/notes".to_string(), true),
        ("/h/notes/a.txt".to_string(), false),
        ("/h/notes/sub".to_string(), true),
        ("/h/notes/sub/b.txt".to_string(), false),
    ];
    let files = e.get_files_from_dirs(&"/h".to_string(), &entries);
    assert_eq!(files.len(), 2);
    assert_eq!(files[0].full, "/h/notes/a.txt");
    assert_eq!(files[0].home, "/h");
    assert_eq!(files[1].sub_home(), "/notes/sub/b.txt");
}

#[test]
fn request_file_names_peer_and_key() {
    let e = engine();
    assert_eq!(
        e.request_file(&b"p".to_vec(), &b"/k".to_vec()),
        Action::RequestFile { peer: b"p".to_vec(), key: b"/k".to_vec() }
    );
}

#[test]
fn a_duplicate_notice_asks_again_and_marks_once() {
    let mut e = engine();
    let data = to_bytes(Messages::Added { path: "/a.txt".to_string(), peerid: b"origin".to_vec() });
    let first = e.handle_message(&data, &nothing(), NOW);
    let second = e.handle_message(&data, &nothing(), NOW);
    assert_eq!(first, second);
    assert_eq!(e.transfer_pending.len(), 1);
    assert_eq!(e.transfer_pending.pending(), vec!["/a.txt".to_string()]);
}

#[test]
fn notice_actions_change_no_state() {
    let msg = Messages::Pushed { path: "/a.txt".to_string(), peerid: b"origin".to_vec() };
    assert_eq!(
        notice_actions(&msg, &nothing(), NOW),
        vec![Action::RequestFile { peer: b"origin".to_vec(), key: b"/a.txt".to_vec() }]
    );
}
