//! The sync engine: one state machine that takes the events of a node, one at
//! a time, and answers each with the actions to perform.
//!
//! The engine owns the pending-transfer ledger and the set of tracked files.
//! It performs no input or output itself and reads no clock: whoever runs it
//! hands each event over together with the time and with what the node
//! holds for the key that the event concerns, performs the actions that
//! come back, and feeds what results from them back as further events.
//! Each handler runs to its end before the next event is taken.

use crate::bencode::{opt_view, text_of_utf8};
use crate::dht::{
    decode_entry, disk_hash, disk_hash_of, enc_entry, no_file, DhtEntry, EntryView, Record,
};
use crate::fileset::TrackedFiles;
use crate::ledger::PendingTransferLedger;
use crate::netcommand::{CliCommand, Command};
use crate::netexchange::{decode_response, enc_response, ResponseData};
use crate::netmessages::{decode_message, enc_message, from_bytes, to_bytes, MessageView, Messages};
use crate::onload::{file_views, files_from_walk, walked_files};
use crate::resolver::{
    decide, opt_entry_view, resolve, LookupError, Outcome, Resolution, ResolutionView,
};
use crate::types::{
    copy_file_path, decode_file_path, enc_file_path, key_of, lemma_key_names_one_file,
    relative_of, under_home, FilePath, FilePathView,
};
use vstd::prelude::*;
use vstd::slice::slice_to_vec;
use vstd::string::*;
use vstd::utf8::{
    decode_utf8, encode_utf8, encode_utf8_decode_utf8, encode_utf8_valid_utf8, valid_utf8,
};

verus! {

/// A peer as the discovery reports it.
#[derive(Debug, Clone, PartialEq, Eq)]
pub struct Peer {
    pub id: Vec<u8>,
    pub address: String,
}

/// One reply to an overlay lookup: the record, and the peer that sent it
/// (none for what this node's own store holds).
#[derive(Debug, Clone, PartialEq, Eq)]
pub struct PeerRecord {
    pub peer: Option<Vec<u8>>,
    pub key: Vec<u8>,
    pub value: Vec<u8>,
}

/// How an overlay lookup ended.
#[derive(Debug, Clone, PartialEq, Eq)]
pub enum GetRecordResult {
    Found { records: Vec<PeerRecord> },
    NotFound { key: Vec<u8> },
    QuorumFailed { key: Vec<u8> },
    Timeout { key: Vec<u8> },
}

/// What the node holds for one content key at the time of an event.
#[derive(Debug, Clone, PartialEq, Eq)]
pub struct Snapshot {
    /// The value of the local store under the key.
    pub stored: Option<Vec<u8>>,
    /// The content of the file on disk; nothing where it cannot be read.
    pub content: Option<Vec<u8>>,
    /// For a patch that came in: the hash of the content that the patch
    /// declares to start from, as far as it declares one.
    pub declared_previous: Option<String>,
}

/// Something to bring to the operator's notice. Nothing follows from it.
#[derive(Debug, Clone, Copy, PartialEq, Eq, Structural)]
pub enum Notice {
    Listening,
    Unhandled,
    MalformedMessage,
    MalformedResponse,
    NothingToSend,
    RepliesDisagree,
    NoUsableReply,
    NoPeerToAsk,
    TimestampConflict,
    QuorumFailed,
    LookupTimeout,
    ProvidersFound,
    ProvidersFailed,
    PutSucceeded,
    PutFailed,
    ProvidingSucceeded,
    ProvidingFailed,
}

/// What the engine asks to be done.
#[derive(Debug, Clone, PartialEq, Eq)]
pub enum Action {
    /// Write the value to the local store.
    StorePut { key: Vec<u8>, value: Vec<u8> },
    /// Put the value to the overlay, with the weakest quorum.
    OverlayPut { key: Vec<u8>, value: Vec<u8> },
    /// Look the key up in the overlay, with the weakest quorum.
    OverlayGet { key: Vec<u8> },
    /// Publish the bytes on the gossip channel.
    Publish { data: Vec<u8> },
    /// Ask the peer for the file under the key.
    RequestFile { peer: Vec<u8>, key: Vec<u8> },
    /// Answer the file request that is being handled.
    RespondFile { data: Vec<u8> },
    /// Write the bytes to the file that the key names.
    WriteFile { key: Vec<u8>, data: Vec<u8> },
    /// Delete the file at the path, which is relative to the home directory.
    DeleteFile { path: String },
    /// Apply the patch to the file at the path, which is relative to the
    /// home directory.
    ApplyPatch { path: String, patch: String },
    /// Add the peer to the overlay's routing and to the gossip peers.
    AddPeer { id: Vec<u8>, address: String },
    /// Remove the peer from the overlay's routing and from the gossip peers.
    RemovePeer { id: Vec<u8>, address: String },
    /// Queue the internal command that a peer has joined.
    EnqueueNewPeer,
    /// Report to the operator.
    Report { notice: Notice },
}

/// An action, as mathematical values.
pub enum ActionView {
    StorePut { key: Seq<u8>, value: Seq<u8> },
    OverlayPut { key: Seq<u8>, value: Seq<u8> },
    OverlayGet { key: Seq<u8> },
    Publish { data: Seq<u8> },
    RequestFile { peer: Seq<u8>, key: Seq<u8> },
    RespondFile { data: Seq<u8> },
    WriteFile { key: Seq<u8>, data: Seq<u8> },
    DeleteFile { path: Seq<char> },
    ApplyPatch { path: Seq<char>, patch: Seq<char> },
    AddPeer { id: Seq<u8>, address: Seq<char> },
    RemovePeer { id: Seq<u8>, address: Seq<char> },
    EnqueueNewPeer,
    Report { notice: Notice },
}

impl View for Action {
    type V = ActionView;

    open spec fn view(&self) -> ActionView {
        match self {
            Action::StorePut { key, value } => ActionView::StorePut { key: key@, value: value@ },
            Action::OverlayPut { key, value } => ActionView::OverlayPut {
                key: key@,
                value: value@,
            },
            Action::OverlayGet { key } => ActionView::OverlayGet { key: key@ },
            Action::Publish { data } => ActionView::Publish { data: data@ },
            Action::RequestFile { peer, key } => ActionView::RequestFile {
                peer: peer@,
                key: key@,
            },
            Action::RespondFile { data } => ActionView::RespondFile { data: data@ },
            Action::WriteFile { key, data } => ActionView::WriteFile { key: key@, data: data@ },
            Action::DeleteFile { path } => ActionView::DeleteFile { path: path@ },
            Action::ApplyPatch { path, patch } => ActionView::ApplyPatch {
                path: path@,
                patch: patch@,
            },
            Action::AddPeer { id, address } => ActionView::AddPeer {
                id: id@,
                address: address@,
            },
            Action::RemovePeer { id, address } => ActionView::RemovePeer {
                id: id@,
                address: address@,
            },
            Action::EnqueueNewPeer => ActionView::EnqueueNewPeer,
            Action::Report { notice } => ActionView::Report { notice: *notice },
        }
    }
}

/// The views of a sequence of actions.
pub open spec fn views(actions: Seq<Action>) -> Seq<ActionView> {
    Seq::new(actions.len(), |i: int| actions[i]@)
}

/// The one report of a notice.
pub open spec fn report(notice: Notice) -> Seq<ActionView> {
    seq![ActionView::Report { notice }]
}

/// The view of optional bytes.
pub open spec fn opt_bytes_view(o: Option<Vec<u8>>) -> Option<Seq<u8>> {
    match o {
        None => None,
        Some(b) => Some(b@),
    }
}

/// The record that the local store holds, as far as its value is the wire
/// form of one. A value that is the wire form of none counts as no record.
pub open spec fn local_entry(snapshot: Snapshot) -> Option<EntryView> {
    match snapshot.stored {
        None => None,
        Some(b) => decode_entry(b@),
    }
}

/// The hash of what is on disk under the key.
pub open spec fn disk_of(key: Seq<u8>, snapshot: Snapshot) -> Seq<char> {
    disk_hash_of(key, opt_bytes_view(snapshot.content))
}

fn push_action(out: &mut Vec<Action>, action: Action)
    ensures
        views(final(out)@) == views(old(out)@).push(action@),
{
    out.push(action);
    proof {
        assert(views(final(out)@) =~= views(old(out)@).push(action@));
    }
}

fn push_report(out: &mut Vec<Action>, notice: Notice)
    ensures
        views(final(out)@) == views(old(out)@) + report(notice),
{
    push_action(out, Action::Report { notice });
    proof {
        assert(views(final(out)@) =~= views(old(out)@) + report(notice));
    }
}

fn copy_bytes(b: &Vec<u8>) -> (res: Vec<u8>)
    ensures
        res@ == b@,
{
    slice_to_vec(b.as_slice())
}

/// The records that the replies carry, in the order of the replies: nothing
/// where a reply's value is the wire form of no record.
pub open spec fn replies(records: Seq<PeerRecord>) -> Seq<Option<EntryView>> {
    Seq::new(records.len(), |i: int| decode_entry(records[i].value@))
}

/// The `i`-th reply is the one to go by: it carries a record, no reply
/// carries a later time, and none behind it carries the same time.
pub open spec fn is_latest(es: Seq<Option<EntryView>>, i: int) -> bool {
    &&& 0 <= i < es.len()
    &&& es[i] is Some
    &&& forall|j: int|
        0 <= j < es.len() && (#[trigger] es[j]) is Some ==> es[j].unwrap().timestamp
            < es[i].unwrap().timestamp || (es[j].unwrap().timestamp == es[i].unwrap().timestamp
            && j <= i)
}

/// The reply to go by: the one with the highest time, and of several with
/// that time the last. None where no reply carries a record.
pub open spec fn latest(es: Seq<Option<EntryView>>) -> Option<int> {
    if exists|i: int| is_latest(es, i) {
        Some(choose|i: int| is_latest(es, i))
    } else {
        None
    }
}

/// At most one reply is the one to go by.
pub proof fn lemma_latest_unique(es: Seq<Option<EntryView>>, i: int, j: int)
    requires
        is_latest(es, i),
        is_latest(es, j),
    ensures
        i == j,
{
    assert(es[j] is Some);
    assert(es[i] is Some);
}

/// Two replies claim the same time for different content.
pub open spec fn disagree(es: Seq<Option<EntryView>>) -> bool {
    exists|i: int, j: int|
        0 <= i < j < es.len() && (#[trigger] es[i]) is Some && (#[trigger] es[j]) is Some
            && es[i].unwrap().timestamp == es[j].unwrap().timestamp && es[i].unwrap().current
            != es[j].unwrap().current
}

/// Reads the record of each reply.
pub fn decode_replies(records: &Vec<PeerRecord>) -> (res: Vec<Option<DhtEntry>>)
    ensures
        res@.len() == records@.len(),
        forall|i: int|
            0 <= i < res@.len() ==> opt_entry_view(#[trigger] res@[i]) == replies(records@)[i],
{
    let mut out: Vec<Option<DhtEntry>> = Vec::new();
    let mut i: usize = 0;
    while i < records.len()
        invariant
            i <= records@.len(),
            out@.len() == i,
            forall|j: int|
                0 <= j < i ==> opt_entry_view(#[trigger] out@[j]) == replies(records@)[j],
        decreases records@.len() - i,
    {
        let entry = DhtEntry::from_bytes(copy_bytes(&records[i].value));
        out.push(entry);
        i += 1;
    }
    out
}

/// The views of the records read from the replies.
pub open spec fn entry_views(entries: Seq<Option<DhtEntry>>) -> Seq<Option<EntryView>> {
    Seq::new(entries.len(), |i: int| opt_entry_view(entries[i]))
}

/// Picks the reply to go by.
pub fn select_latest(entries: &Vec<Option<DhtEntry>>) -> (res: Option<usize>)
    ensures
        match res {
            Some(i) => latest(entry_views(entries@)) == Some(i as int),
            None => latest(entry_views(entries@)) is None,
        },
{
    let ghost es = entry_views(entries@);
    let mut best: Option<usize> = None;
    let mut best_time: i64 = 0;
    let mut i: usize = 0;
    while i < entries.len()
        invariant
            es == entry_views(entries@),
            i <= entries@.len(),
            match best {
                Some(b) => b < i && is_latest(es.take(i as int), b as int) && best_time
                    == es[b as int].unwrap().timestamp,
                None => forall|j: int| 0 <= j < i ==> es[j] is None,
            },
        decreases entries@.len() - i,
    {
        let ghost before = es.take(i as int);
        let ghost after = es.take(i + 1);
        match &entries[i] {
            None => {
                proof {
                    assert(es[i as int] is None);
                    if best is Some {
                        let b = best.unwrap() as int;
                        assert forall|j: int|
                            0 <= j < after.len() && (#[trigger] after[j]) is Some
                                implies after[j].unwrap().timestamp
                            < after[b].unwrap().timestamp || (after[j].unwrap().timestamp
                            == after[b].unwrap().timestamp && j <= b) by {
                            assert(before[j] == after[j]);
                        }
                    }
                }
            },
            Some(e) => {
                let take = match best {
                    None => true,
                    Some(_) => e.timestamp >= best_time,
                };
                proof {
                    assert(es[i as int] == Some(e@));
                    assert forall|j: int| 0 <= j < i implies before[j] == after[j] by {}
                    if take {
                        assert forall|j: int|
                            0 <= j < after.len() && (#[trigger] after[j]) is Some
                                implies after[j].unwrap().timestamp
                            < after[i as int].unwrap().timestamp || (after[j].unwrap().timestamp
                            == after[i as int].unwrap().timestamp && j <= i) by {
                            if j < i {
                                assert(before[j] == after[j]);
                                assert(before[j] is Some);
                                if best is None {
                                    assert(es[j] is None);
                                }
                            }
                        }
                    } else {
                        let b = best.unwrap() as int;
                        assert forall|j: int|
                            0 <= j < after.len() && (#[trigger] after[j]) is Some
                                implies after[j].unwrap().timestamp
                            < after[b].unwrap().timestamp || (after[j].unwrap().timestamp
                            == after[b].unwrap().timestamp && j <= b) by {
                            if j < i {
                                assert(before[j] == after[j]);
                            }
                        }
                    }
                }
                if take {
                    best = Some(i);
                    best_time = e.timestamp;
                }
            },
        }
        i += 1;
    }
    proof {
        assert(es.take(entries@.len() as int) =~= es);
        match best {
            Some(b) => {
                let c = choose|c: int| is_latest(es, c);
                lemma_latest_unique(es, b as int, c);
            },
            None => {
                assert forall|c: int| !is_latest(es, c) by {
                    if is_latest(es, c) {
                        assert(es[c] is None);
                    }
                }
            },
        }
    }
    best
}

/// Whether two replies claim the same time for different content.
pub fn replies_disagree(entries: &Vec<Option<DhtEntry>>) -> (res: bool)
    ensures
        res == disagree(entry_views(entries@)),
{
    let ghost es = entry_views(entries@);
    let mut i: usize = 0;
    while i < entries.len()
        invariant
            es == entry_views(entries@),
            i <= entries@.len(),
            forall|a: int, b: int|
                0 <= a < i && a < b < es.len() && (#[trigger] es[a]) is Some && (
                #[trigger] es[b]) is Some ==> !(es[a].unwrap().timestamp
                    == es[b].unwrap().timestamp && es[a].unwrap().current
                    != es[b].unwrap().current),
        decreases entries@.len() - i,
    {
        if let Some(x) = &entries[i] {
            let mut j: usize = i + 1;
            while j < entries.len()
                invariant
                    es == entry_views(entries@),
                    i < j <= entries@.len(),
                    es[i as int] == Some(x@),
                    forall|b: int|
                        i < b < j && (#[trigger] es[b]) is Some ==> !(x@.timestamp
                            == es[b].unwrap().timestamp && x@.current != es[b].unwrap().current),
                decreases entries@.len() - j,
            {
                if let Some(y) = &entries[j] {
                    if x.timestamp == y.timestamp && x.current != y.current {
                        proof {
                            assert(es[j as int] == Some(y@));
                            assert(es[i as int] is Some && es[j as int] is Some);
                        }
                        return true;
                    }
                }
                j += 1;
            }
        }
        i += 1;
    }
    false
}

/// The write to the local store that a decision asks for.
pub open spec fn store_part(key: Seq<u8>, d: ResolutionView) -> Seq<ActionView> {
    match d.store_write {
        Some(e) => seq![ActionView::StorePut { key, value: enc_entry(e) }],
        None => Seq::<ActionView>::empty(),
    }
}

/// The put to the overlay that a decision asks for.
pub open spec fn overlay_part(key: Seq<u8>, d: ResolutionView) -> Seq<ActionView> {
    match d.overlay_write {
        Some(e) => seq![ActionView::OverlayPut { key, value: enc_entry(e) }],
        None => Seq::<ActionView>::empty(),
    }
}

/// The request for the file that a decision asks for. The file can only be
/// requested from a peer: where the record to go by came from no peer, that
/// is reported instead.
pub open spec fn request_part(
    key: Seq<u8>,
    peer: Option<Seq<u8>>,
    d: ResolutionView,
) -> Seq<ActionView> {
    if d.request_file {
        match peer {
            Some(p) => seq![ActionView::RequestFile { peer: p, key }],
            None => report(Notice::NoPeerToAsk),
        }
    } else {
        Seq::<ActionView>::empty()
    }
}

/// The report of a decision, where it is one to report: a conflict, and a
/// lookup that failed for want of replies or of time.
pub open spec fn notice_part(d: ResolutionView) -> Seq<ActionView> {
    match d.outcome {
        Outcome::Conflict => report(Notice::TimestampConflict),
        Outcome::LookupFailed(LookupError::QuorumFailed) => report(Notice::QuorumFailed),
        Outcome::LookupFailed(LookupError::Timeout) => report(Notice::LookupTimeout),
        _ => Seq::<ActionView>::empty(),
    }
}

/// What a decision asks for, in order: the write to the local store, the
/// put to the overlay, the request for the file, and the report.
pub open spec fn resolution_actions(
    key: Seq<u8>,
    peer: Option<Seq<u8>>,
    d: ResolutionView,
) -> Seq<ActionView> {
    store_part(key, d) + overlay_part(key, d) + request_part(key, peer, d) + notice_part(d)
}

fn push_store_part(out: &mut Vec<Action>, key: &Vec<u8>, d: &Resolution)
    ensures
        views(final(out)@) == views(old(out)@) + store_part(key@, d@),
{
    if let Some(e) = &d.store_write {
        push_action(out, Action::StorePut { key: copy_bytes(key), value: e.to_bytes() });
    }
    proof {
        assert(views(final(out)@) =~= views(old(out)@) + store_part(key@, d@));
    }
}

fn push_overlay_part(out: &mut Vec<Action>, key: &Vec<u8>, d: &Resolution)
    ensures
        views(final(out)@) == views(old(out)@) + overlay_part(key@, d@),
{
    if let Some(e) = &d.overlay_write {
        push_action(out, Action::OverlayPut { key: copy_bytes(key), value: e.to_bytes() });
    }
    proof {
        assert(views(final(out)@) =~= views(old(out)@) + overlay_part(key@, d@));
    }
}

fn push_request_part(out: &mut Vec<Action>, key: &Vec<u8>, peer: &Option<Vec<u8>>, d: &Resolution)
    ensures
        views(final(out)@) == views(old(out)@) + request_part(key@, opt_bytes_view(*peer), d@),
{
    if d.request_file {
        match peer {
            Some(p) => {
                push_action(out, Action::RequestFile { peer: copy_bytes(p), key: copy_bytes(key) });
            },
            None => {
                push_report(out, Notice::NoPeerToAsk);
            },
        }
    }
    proof {
        assert(views(final(out)@) =~= views(old(out)@) + request_part(
            key@,
            opt_bytes_view(*peer),
            d@,
        ));
    }
}

fn push_notice_part(out: &mut Vec<Action>, d: &Resolution)
    ensures
        views(final(out)@) == views(old(out)@) + notice_part(d@),
{
    match d.outcome {
        Outcome::Conflict => {
            push_report(out, Notice::TimestampConflict);
        },
        Outcome::LookupFailed(LookupError::QuorumFailed) => {
            push_report(out, Notice::QuorumFailed);
        },
        Outcome::LookupFailed(LookupError::Timeout) => {
            push_report(out, Notice::LookupTimeout);
        },
        _ => {},
    }
    proof {
        assert(views(final(out)@) =~= views(old(out)@) + notice_part(d@));
    }
}

fn push_resolution(out: &mut Vec<Action>, key: &Vec<u8>, peer: &Option<Vec<u8>>, d: &Resolution)
    ensures
        views(final(out)@) == views(old(out)@) + resolution_actions(
            key@,
            opt_bytes_view(*peer),
            d@,
        ),
{
    push_store_part(out, key, d);
    push_overlay_part(out, key, d);
    push_request_part(out, key, peer, d);
    push_notice_part(out, d);
    proof {
        assert(views(final(out)@) =~= views(old(out)@) + resolution_actions(
            key@,
            opt_bytes_view(*peer),
            d@,
        ));
    }
}

/// The content key that the outcome of a lookup concerns: that of the reply
/// to go by, or the key that was looked up in vain. None where replies came
/// but none carries a record.
pub open spec fn lookup_key(result: GetRecordResult) -> Option<Seq<u8>> {
    match result {
        GetRecordResult::Found { records } => match latest(replies(records@)) {
            Some(i) => Some(records@[i].key@),
            None => None,
        },
        GetRecordResult::NotFound { key } => Some(key@),
        GetRecordResult::QuorumFailed { key } => Some(key@),
        GetRecordResult::Timeout { key } => Some(key@),
    }
}

/// What the engine does when an overlay lookup has ended, at time `now`.
///
/// Of the replies the one with the highest time is gone by. What the local
/// store holds, what the overlay answered and what is on disk go through the
/// resolver, and its decision becomes actions. Replies that contradict one
/// another are reported before anything else, and replies of which none
/// carries a record are reported and change nothing.
pub open spec fn reconcile_actions(
    result: GetRecordResult,
    snapshot: Snapshot,
    now: i64,
) -> Seq<ActionView> {
    match result {
        GetRecordResult::Found { records } => {
            let es = replies(records@);
            let audit = if disagree(es) {
                report(Notice::RepliesDisagree)
            } else {
                Seq::<ActionView>::empty()
            };
            match latest(es) {
                None => audit + report(Notice::NoUsableReply),
                Some(i) => audit + resolution_actions(
                    records@[i].key@,
                    opt_bytes_view(records@[i].peer),
                    decide(
                        local_entry(snapshot),
                        Ok(es[i].unwrap()),
                        disk_of(records@[i].key@, snapshot),
                        now,
                    ),
                ),
            }
        },
        GetRecordResult::NotFound { key } => resolution_actions(
            key@,
            None,
            decide(
                local_entry(snapshot),
                Err(LookupError::NotFound),
                disk_of(key@, snapshot),
                now,
            ),
        ),
        GetRecordResult::QuorumFailed { key } => resolution_actions(
            key@,
            None,
            decide(
                local_entry(snapshot),
                Err(LookupError::QuorumFailed),
                disk_of(key@, snapshot),
                now,
            ),
        ),
        GetRecordResult::Timeout { key } => resolution_actions(
            key@,
            None,
            decide(
                local_entry(snapshot),
                Err(LookupError::Timeout),
                disk_of(key@, snapshot),
                now,
            ),
        ),
    }
}

/// Bootstrap, as actions. Where the overlay has no record under the key,
/// the local store holds none and a file is on disk, the engine writes one
/// fresh record, which names the hash of the disk, supersedes nothing and
/// is stamped `now`, to the local store and puts the same to the overlay.
pub proof fn lemma_bootstrap_actions(result: GetRecordResult, snapshot: Snapshot, now: i64)
    requires
        result is NotFound,
        snapshot.stored is None,
        disk_of(result->NotFound_key@, snapshot) != no_file(),
    ensures
        ({
            let key = result->NotFound_key@;
            let record = enc_entry(
                EntryView { current: disk_of(key, snapshot), previous: None, timestamp: now },
            );
            reconcile_actions(result, snapshot, now) == seq![
                ActionView::StorePut { key, value: record },
                ActionView::OverlayPut { key, value: record },
            ]
        }),
{
    let key = result->NotFound_key@;
    let d = decide(None, Err(LookupError::NotFound), disk_of(key, snapshot), now);
    let record = enc_entry(
        EntryView { current: disk_of(key, snapshot), previous: None, timestamp: now },
    );
    assert(resolution_actions(key, None, d) =~= seq![
        ActionView::StorePut { key, value: record },
        ActionView::OverlayPut { key, value: record },
    ]);
}

/// Conflict, as actions. Where the one reply of the overlay and the local
/// record carry the same time, and the disk holds something else than the
/// reply names, the engine reports the conflict and writes no store. Where
/// a file is on disk it does nothing else; where none is, it first requests
/// the file from the peer of the reply.
pub proof fn lemma_conflict_actions(result: GetRecordResult, snapshot: Snapshot, now: i64)
    requires
        result is Found,
        result->records@.len() == 1,
        decode_entry(result->records@[0].value@) is Some,
        local_entry(snapshot) is Some,
        local_entry(snapshot).unwrap().timestamp == decode_entry(
            result->records@[0].value@,
        ).unwrap().timestamp,
        disk_of(result->records@[0].key@, snapshot) != decode_entry(
            result->records@[0].value@,
        ).unwrap().current,
    ensures
        ({
            let reply = result->records@[0];
            let request = if disk_of(reply.key@, snapshot) == no_file() {
                match reply.peer {
                    Some(p) => seq![ActionView::RequestFile { peer: p@, key: reply.key@ }],
                    None => report(Notice::NoPeerToAsk),
                }
            } else {
                Seq::<ActionView>::empty()
            };
            reconcile_actions(result, snapshot, now) == request + report(
                Notice::TimestampConflict,
            )
        }),
{
    let reply = result->records@[0];
    let remote = decode_entry(reply.value@).unwrap();
    let local = local_entry(snapshot).unwrap();
    let es = replies(result->records@);
    assert(es.len() == 1);
    assert(es[0] == Some(remote));
    assert(is_latest(es, 0));
    let c = choose|c: int| is_latest(es, c);
    lemma_latest_unique(es, 0, c);
    assert(!disagree(es));
    let key = reply.key@;
    let d = decide(Some(local), Ok(remote), disk_of(key, snapshot), now);
    assert(d.outcome == Outcome::Conflict);
    let request = request_part(key, opt_bytes_view(reply.peer), d);
    assert(resolution_actions(key, opt_bytes_view(reply.peer), d) =~= request + report(
        Notice::TimestampConflict,
    ));
    assert(Seq::<ActionView>::empty() + (request + report(Notice::TimestampConflict)) =~= request
        + report(Notice::TimestampConflict));
}

/// Reads the record that the local store holds.
pub fn stored_entry(snapshot: &Snapshot) -> (res: Option<DhtEntry>)
    ensures
        opt_entry_view(res) == local_entry(*snapshot),
{
    match &snapshot.stored {
        None => None,
        Some(b) => DhtEntry::from_bytes(copy_bytes(b)),
    }
}

fn push_lookup_failure(
    out: &mut Vec<Action>,
    key: &Vec<u8>,
    error: LookupError,
    snapshot: &Snapshot,
    now: i64,
)
    ensures
        views(final(out)@) == views(old(out)@) + resolution_actions(
            key@,
            None,
            decide(local_entry(*snapshot), Err(error), disk_of(key@, *snapshot), now),
        ),
{
    let local = stored_entry(snapshot);
    let disk = disk_hash(key.as_slice(), &snapshot.content);
    let remote: Result<DhtEntry, LookupError> = Err(error);
    let d = resolve(&local, &remote, &disk, now);
    push_resolution(out, key, &None, &d);
}

/// The content key that the outcome of a lookup concerns. Whoever runs the
/// engine reads the local store and the disk for this key before the outcome
/// is handled.
pub fn key_of_lookup(result: &GetRecordResult) -> (res: Option<Vec<u8>>)
    ensures
        opt_bytes_view(res) == lookup_key(*result),
{
    match result {
        GetRecordResult::Found { records } => {
            let entries = decode_replies(records);
            proof {
                assert(entry_views(entries@) =~= replies(records@));
            }
            match select_latest(&entries) {
                None => None,
                Some(i) => Some(copy_bytes(&records[i].key)),
            }
        },
        GetRecordResult::NotFound { key } => Some(copy_bytes(key)),
        GetRecordResult::QuorumFailed { key } => Some(copy_bytes(key)),
        GetRecordResult::Timeout { key } => Some(copy_bytes(key)),
    }
}

/// Handles the outcome of an overlay lookup at time `now`.
pub fn get_record(result: &GetRecordResult, snapshot: &Snapshot, now: i64) -> (res: Vec<Action>)
    ensures
        views(res@) == reconcile_actions(*result, *snapshot, now),
{
    let mut out: Vec<Action> = Vec::new();
    proof {
        assert(views(out@) =~= Seq::<ActionView>::empty());
    }
    match result {
        GetRecordResult::Found { records } => {
            let entries = decode_replies(records);
            proof {
                assert(entry_views(entries@) =~= replies(records@));
            }
            if replies_disagree(&entries) {
                push_report(&mut out, Notice::RepliesDisagree);
            }
            let ghost audit = views(out@);
            match select_latest(&entries) {
                None => {
                    push_report(&mut out, Notice::NoUsableReply);
                },
                Some(i) => {
                    let record = &records[i];
                    let local = stored_entry(snapshot);
                    let disk = disk_hash(record.key.as_slice(), &snapshot.content);
                    let remote: Result<DhtEntry, LookupError> = match &entries[i] {
                        Some(e) => Ok(crate::resolver::copy_entry(e)),
                        None => Err(LookupError::NotFound),
                    };
                    proof {
                        assert(entry_views(entries@)[i as int] == opt_entry_view(
                            entries@[i as int],
                        ));
                    }
                    let d = resolve(&local, &remote, &disk, now);
                    push_resolution(&mut out, &record.key, &record.peer, &d);
                },
            }
        },
        GetRecordResult::NotFound { key } => {
            push_lookup_failure(&mut out, key, LookupError::NotFound, snapshot, now);
        },
        GetRecordResult::QuorumFailed { key } => {
            push_lookup_failure(&mut out, key, LookupError::QuorumFailed, snapshot, now);
        },
        GetRecordResult::Timeout { key } => {
            push_lookup_failure(&mut out, key, LookupError::Timeout, snapshot, now);
        },
    }
    proof {
        assert(views(out@) =~= reconcile_actions(*result, *snapshot, now));
    }
    out
}

/// The engine's own state: who the node is, which paths await an inbound
/// apply, and which files are tracked.
#[derive(Debug)]
pub struct NetworkEvent {
    /// The identity of this node among its peers.
    pub local_peer: Vec<u8>,
    /// The pending-transfer ledger.
    pub transfer_pending: PendingTransferLedger,
    /// The tracked files, by content key.
    pub key_2_filepath: TrackedFiles,
    /// The watched directories.
    pub dirs: Vec<String>,
}

/// A change on disk that the watcher saw.
#[derive(Debug, Clone, Copy, PartialEq, Eq, Structural)]
pub enum WatchKind {
    Added,
    Changed,
    Removed,
}

/// An event of the transport, in the one flat form that the engine
/// understands.
#[derive(Debug, Clone, PartialEq, Eq)]
pub enum SwarmEvent {
    NewListenAddr { address: String },
    /// A gossip message arrived.
    Message { source: Vec<u8>, id: String, data: Vec<u8> },
    /// Peers were discovered.
    Discovered { peers: Vec<Peer> },
    /// Peers expired.
    Expired { peers: Vec<Peer> },
    GetProvidersOk { key: Vec<u8>, providers: Vec<Vec<u8>> },
    GetProvidersFailed,
    /// An overlay lookup ended.
    GetRecord { result: GetRecordResult },
    PutRecordOk { key: Vec<u8> },
    PutRecordFailed,
    StartProvidingOk { key: Vec<u8> },
    StartProvidingFailed,
    /// A peer asks for the file under the key.
    FileRequested { key: Vec<u8> },
    /// The answer to this node's request for the file under the key.
    FileReceived { key: Vec<u8>, payload: Vec<u8> },
    /// Anything else.
    Other,
}

/// The tracked files after each of `files` has been entered, in order.
pub open spec fn insert_all(
    m: Map<Seq<u8>, FilePathView>,
    files: Seq<FilePath>,
) -> Map<Seq<u8>, FilePathView>
    decreases files.len(),
{
    if files.len() == 0 {
        m
    } else {
        insert_all(m, files.drop_last()).insert(files.last().key(), files.last()@)
    }
}

/// Each file that was entered is found under its own key, as long as no
/// file entered after it has the same key.
pub proof fn lemma_entered_file_is_found(
    m: Map<Seq<u8>, FilePathView>,
    files: Seq<FilePath>,
    i: int,
)
    requires
        0 <= i < files.len(),
        forall|j: int| i < j < files.len() ==> (#[trigger] files[j]).key() != files[i].key(),
    ensures
        insert_all(m, files).contains_key(files[i].key()),
        insert_all(m, files)[files[i].key()] == files[i]@,
    decreases files.len(),
{
    if i < files.len() - 1 {
        let front = files.drop_last();
        assert(files.last() == files[files.len() - 1]);
        assert forall|j: int| i < j < front.len() implies (#[trigger] front[j]).key()
            != front[i].key() by {
            assert(front[j] == files[j]);
        }
        lemma_entered_file_is_found(m, front, i);
    }
}

/// Every file of a walk is tracked. Where all the files lie under one home
/// directory and no two of them have the same full path, each is found
/// under its own key once all are entered.
pub proof fn lemma_walk_tracks_every_file(
    m: Map<Seq<u8>, FilePathView>,
    files: Seq<FilePath>,
    i: int,
)
    requires
        0 <= i < files.len(),
        forall|j: int|
            0 <= j < files.len() ==> (#[trigger] files[j])@.home == files[i]@.home && under_home(
                files[j]@,
            ),
        forall|j: int, k: int|
            0 <= j < k < files.len() ==> (#[trigger] files[j])@.full != (#[trigger] files[k])@.full,
    ensures
        insert_all(m, files).contains_key(files[i].key()),
        insert_all(m, files)[files[i].key()] == files[i]@,
{
    assert forall|j: int| i < j < files.len() implies (#[trigger] files[j]).key()
        != files[i].key() by {
        if files[j].key() == files[i].key() {
            lemma_key_names_one_file(files[i]@, files[j]@);
        }
    }
    lemma_entered_file_is_found(m, files, i);
}

/// The probe that reconciliation sends for one file.
pub open spec fn probe(file: FilePathView, now: i64) -> MessageView {
    MessageView::FileCheck { filepath: enc_file_path(file.full, file.home), timestamp: now }
}

/// The reconciliation sweep over `files` at time `now`: for each file, in
/// order, one overlay lookup of its content key and one published probe.
pub open spec fn sweep_actions(files: Seq<FilePath>, now: i64) -> Seq<ActionView>
    decreases files.len(),
{
    if files.len() == 0 {
        Seq::<ActionView>::empty()
    } else {
        sweep_actions(files.drop_last(), now) + seq![
            ActionView::OverlayGet { key: files.last().key() },
            ActionView::Publish { data: enc_message(probe(files.last()@, now)) },
        ]
    }
}

/// The path for which a change notice makes an apply outstanding.
pub open spec fn message_path(m: MessageView) -> Option<Seq<char>> {
    match m {
        MessageView::Pushed { path, .. } => Some(path),
        MessageView::Added { path, .. } => Some(path),
        MessageView::Changed { path, .. } => Some(path),
        MessageView::Removed { path, .. } => Some(path),
        MessageView::FileCheck { .. } => None,
        MessageView::FileUpdate { .. } => None,
    }
}

/// The ledger after a gossip message: the path of a notice of a push, an
/// addition, a change or a removal is entered; anything else leaves the
/// ledger as it was.
pub open spec fn ledger_after_message(
    ledger: Set<Seq<char>>,
    m: Option<MessageView>,
) -> Set<Seq<char>> {
    match m {
        Some(m) => match message_path(m) {
            Some(p) => ledger.insert(p),
            None => ledger,
        },
        None => ledger,
    }
}

/// The record that marks a removed file: the mark for "no file" supersedes
/// the hash that the local store held.
pub open spec fn tombstone(local: Option<EntryView>, now: i64) -> EntryView {
    EntryView {
        current: no_file(),
        previous: match local {
            Some(l) => Some(l.current),
            None => None,
        },
        timestamp: now,
    }
}

/// What the engine does about a gossip message at time `now`.
///
/// - Bytes that are the wire form of no notice are dropped and reported.
/// - `Added`, `Pushed`: the whole file is requested from the origin peer.
/// - `Changed`: where the hash of what is on disk is the hash that the patch
///   declares to start from, the patch is applied; otherwise the whole file
///   is requested from the origin peer.
/// - `Removed`: the file is deleted and a tombstone goes into the local
///   store.
/// - `FileCheck`: the content key of the file that the probe names is looked
///   up in the overlay; a probe that names no file is reported.
/// - `FileUpdate`: reported as not handled.
pub open spec fn message_actions(
    m: Option<MessageView>,
    snapshot: Snapshot,
    now: i64,
) -> Seq<ActionView> {
    match m {
        None => report(Notice::MalformedMessage),
        Some(MessageView::Pushed { path, peerid }) => seq![
            ActionView::RequestFile { peer: peerid, key: encode_utf8(path) },
        ],
        Some(MessageView::Added { path, peerid }) => seq![
            ActionView::RequestFile { peer: peerid, key: encode_utf8(path) },
        ],
        Some(MessageView::Changed { path, patch, peerid }) => {
            if opt_view(snapshot.declared_previous) == Some(disk_of(encode_utf8(path), snapshot)) {
                seq![ActionView::ApplyPatch { path, patch }]
            } else {
                seq![ActionView::RequestFile { peer: peerid, key: encode_utf8(path) }]
            }
        },
        Some(MessageView::Removed { path, peerid }) => seq![
            ActionView::DeleteFile { path },
            ActionView::StorePut {
                key: encode_utf8(path),
                value: enc_entry(tombstone(local_entry(snapshot), now)),
            },
        ],
        Some(MessageView::FileCheck { filepath, timestamp }) => match decode_file_path(filepath) {
            None => report(Notice::MalformedMessage),
            Some(file) => seq![ActionView::OverlayGet { key: key_of(file) }],
        },
        Some(MessageView::FileUpdate { .. }) => report(Notice::Unhandled),
    }
}

/// The content key that a gossip message concerns, if it concerns one.
pub open spec fn message_key(m: Option<MessageView>) -> Option<Seq<u8>> {
    match m {
        Some(m) => match message_path(m) {
            Some(p) => Some(encode_utf8(p)),
            None => None,
        },
        None => None,
    }
}

/// The change on disk that a command of the watcher reports, with the file
/// it is about.
pub open spec fn watched(command: Command, home: Seq<char>) -> Option<(WatchKind, FilePathView)> {
    match command {
        Command::EditFileAdd { path } => Some(
            (WatchKind::Added, FilePathView { home, full: path@ }),
        ),
        Command::EditFileChange { path } => Some(
            (WatchKind::Changed, FilePathView { home, full: path@ }),
        ),
        Command::EditFileDelete { path } => Some(
            (WatchKind::Removed, FilePathView { home, full: path@ }),
        ),
        _ => None,
    }
}

/// The notice that announces a change on disk to the peers.
pub open spec fn announcement(
    kind: WatchKind,
    path: Seq<char>,
    patch: Seq<char>,
    peer: Seq<u8>,
) -> MessageView {
    match kind {
        WatchKind::Added => MessageView::Added { path, peerid: peer },
        WatchKind::Changed => MessageView::Changed { path, patch, peerid: peer },
        WatchKind::Removed => MessageView::Removed { path, peerid: peer },
    }
}

/// The record that is written for a change on disk: the hash of what is on
/// disk now supersedes the hash that the local store held.
pub open spec fn refreshed_record(key: Seq<u8>, snapshot: Snapshot, now: i64) -> EntryView {
    EntryView {
        current: disk_of(key, snapshot),
        previous: match local_entry(snapshot) {
            Some(l) => Some(l.current),
            None => None,
        },
        timestamp: now,
    }
}

/// What the engine does about a change on disk at time `now`.
///
/// A change at a path that awaits an inbound apply is the echo of that
/// apply: nothing is done about it. Any other change originated here: the
/// matching notice is published with this node as origin, and the refreshed
/// record goes to the local store and to the overlay. A command that reports
/// no change on disk is reported as not handled.
pub open spec fn watch_actions(
    ledger: Set<Seq<char>>,
    peer: Seq<u8>,
    command: Command,
    home: Seq<char>,
    patch: Seq<char>,
    snapshot: Snapshot,
    now: i64,
) -> Seq<ActionView> {
    match watched(command, home) {
        None => report(Notice::Unhandled),
        Some((kind, file)) => {
            if ledger.contains(relative_of(file)) {
                Seq::<ActionView>::empty()
            } else {
                let record = enc_entry(refreshed_record(key_of(file), snapshot, now));
                seq![
                    ActionView::Publish {
                        data: enc_message(announcement(kind, relative_of(file), patch, peer)),
                    },
                    ActionView::StorePut { key: key_of(file), value: record },
                    ActionView::OverlayPut { key: key_of(file), value: record },
                ]
            }
        },
    }
}

/// The ledger after a change on disk: the entry of the path is cleared.
pub open spec fn ledger_after_watch(
    ledger: Set<Seq<char>>,
    command: Command,
    home: Seq<char>,
) -> Set<Seq<char>> {
    match watched(command, home) {
        None => ledger,
        Some((_, file)) => ledger.remove(relative_of(file)),
    }
}

/// No feedback loop. After a notice of a push, an addition, a change or a
/// removal at a path has come in, the next change that the watcher sees at
/// that path leads to no action at all, so to no publishing, and clears the
/// ledger's entry of the path.
pub proof fn lemma_no_feedback(
    ledger: Set<Seq<char>>,
    m: MessageView,
    peer: Seq<u8>,
    command: Command,
    home: Seq<char>,
    patch: Seq<char>,
    snapshot: Snapshot,
    now: i64,
)
    requires
        message_path(m) is Some,
        watched(command, home) is Some,
        relative_of(watched(command, home).unwrap().1) == message_path(m).unwrap(),
    ensures
        watch_actions(
            ledger_after_message(ledger, Some(m)),
            peer,
            command,
            home,
            patch,
            snapshot,
            now,
        ) == Seq::<ActionView>::empty(),
        !ledger_after_watch(ledger_after_message(ledger, Some(m)), command, home).contains(
            message_path(m).unwrap(),
        ),
{
}

/// A notice that comes in twice leaves the ledger as it would be after the
/// first: replaying a gossip message marks nothing more.
pub proof fn lemma_duplicate_message_marks_once(ledger: Set<Seq<char>>, m: Option<MessageView>)
    ensures
        ledger_after_message(ledger_after_message(ledger, m), m) == ledger_after_message(
            ledger,
            m,
        ),
{
    assert(ledger_after_message(ledger_after_message(ledger, m), m) =~= ledger_after_message(
        ledger,
        m,
    ));
}

/// A change that originated here is announced: where the path awaits no
/// inbound apply, the first action publishes the matching notice.
pub proof fn lemma_local_change_is_announced(
    ledger: Set<Seq<char>>,
    peer: Seq<u8>,
    command: Command,
    home: Seq<char>,
    patch: Seq<char>,
    snapshot: Snapshot,
    now: i64,
)
    requires
        watched(command, home) is Some,
        !ledger.contains(relative_of(watched(command, home).unwrap().1)),
    ensures
        watch_actions(ledger, peer, command, home, patch, snapshot, now).len() == 3,
        watch_actions(ledger, peer, command, home, patch, snapshot, now)[0]
            == (ActionView::Publish {
            data: enc_message(
                announcement(
                    watched(command, home).unwrap().0,
                    relative_of(watched(command, home).unwrap().1),
                    patch,
                    peer,
                ),
            ),
        }),
{
}

/// Whether a push concerns a file: a push that names no path concerns every
/// tracked file, a push that names a path the file whose relative path it
/// is.
pub open spec fn pushes(name: Option<Seq<char>>, file: FilePathView) -> bool {
    match name {
        None => true,
        Some(path) => relative_of(file) == path,
    }
}

/// What a forced push announces: for each record of `store`, in order, whose
/// key is that of a tracked file that the push concerns, the record is put
/// to the overlay as it stands, without a lookup and without a merge, and a
/// `Pushed` notice for the file is published with this node as origin.
pub open spec fn push_actions(
    files: Map<Seq<u8>, FilePathView>,
    peer: Seq<u8>,
    name: Option<Seq<char>>,
    store: Seq<Record>,
) -> Seq<ActionView>
    decreases store.len(),
{
    if store.len() == 0 {
        Seq::<ActionView>::empty()
    } else {
        let r = store.last();
        push_actions(files, peer, name, store.drop_last()) + (if files.contains_key(r.key@)
            && pushes(name, files[r.key@]) {
            seq![
                ActionView::OverlayPut { key: r.key@, value: r.value@ },
                ActionView::Publish {
                    data: enc_message(
                        MessageView::Pushed { path: relative_of(files[r.key@]), peerid: peer },
                    ),
                },
            ]
        } else {
            Seq::<ActionView>::empty()
        })
    }
}

/// What is done about discovered peers: each is added, in order.
pub open spec fn added_peers(peers: Seq<Peer>) -> Seq<ActionView>
    decreases peers.len(),
{
    if peers.len() == 0 {
        Seq::<ActionView>::empty()
    } else {
        added_peers(peers.drop_last()).push(
            ActionView::AddPeer { id: peers.last().id@, address: peers.last().address@ },
        )
    }
}

/// What is done about expired peers: each is removed, in order.
pub open spec fn removed_peers(peers: Seq<Peer>) -> Seq<ActionView>
    decreases peers.len(),
{
    if peers.len() == 0 {
        Seq::<ActionView>::empty()
    } else {
        removed_peers(peers.drop_last()).push(
            ActionView::RemovePeer { id: peers.last().id@, address: peers.last().address@ },
        )
    }
}

/// The answer to a peer's request for a file: the file's bytes with its
/// version record. Where the file or its record is missing, nothing is sent
/// and that is reported.
pub open spec fn request_actions(snapshot: Snapshot) -> Seq<ActionView> {
    match (snapshot.content, local_entry(snapshot)) {
        (Some(content), Some(entry)) => seq![
            ActionView::RespondFile { data: enc_response(content@, entry) },
        ],
        _ => report(Notice::NothingToSend),
    }
}

/// What is done with the answer to this node's request for a file: the
/// bytes are written to the file that the key names, and the record that
/// came with them goes to the local store and to the overlay. A payload that
/// is the wire form of no response is dropped and reported.
pub open spec fn response_actions(key: Seq<u8>, payload: Seq<u8>) -> Seq<ActionView> {
    match decode_response(payload) {
        None => report(Notice::MalformedResponse),
        Some(r) => seq![
            ActionView::WriteFile { key, data: r.data },
            ActionView::StorePut { key, value: enc_entry(r.metadata) },
            ActionView::OverlayPut { key, value: enc_entry(r.metadata) },
        ],
    }
}

/// What the engine does about an event of the transport at time `now`.
pub open spec fn swarm_actions(event: SwarmEvent, snapshot: Snapshot, now: i64) -> Seq<
    ActionView,
> {
    match event {
        SwarmEvent::NewListenAddr { .. } => report(Notice::Listening),
        SwarmEvent::Message { data, .. } => message_actions(decode_message(data@), snapshot, now),
        SwarmEvent::Discovered { peers } => added_peers(peers@).push(ActionView::EnqueueNewPeer),
        SwarmEvent::Expired { peers } => removed_peers(peers@),
        SwarmEvent::GetProvidersOk { .. } => report(Notice::ProvidersFound),
        SwarmEvent::GetProvidersFailed => report(Notice::ProvidersFailed),
        SwarmEvent::GetRecord { result } => reconcile_actions(result, snapshot, now),
        SwarmEvent::PutRecordOk { .. } => report(Notice::PutSucceeded),
        SwarmEvent::PutRecordFailed => report(Notice::PutFailed),
        SwarmEvent::StartProvidingOk { .. } => report(Notice::ProvidingSucceeded),
        SwarmEvent::StartProvidingFailed => report(Notice::ProvidingFailed),
        SwarmEvent::FileRequested { .. } => request_actions(snapshot),
        SwarmEvent::FileReceived { key, payload } => response_actions(key@, payload@),
        SwarmEvent::Other => Seq::<ActionView>::empty(),
    }
}

/// The ledger after a file came in for the key: the path that the key
/// spells is entered, since the write to disk that follows will be seen by
/// the watcher. A payload that is dropped, or a key that spells no path,
/// leaves the ledger as it was.
pub open spec fn ledger_after_response(
    ledger: Set<Seq<char>>,
    key: Seq<u8>,
    payload: Seq<u8>,
) -> Set<Seq<char>> {
    if decode_response(payload) is Some && valid_utf8(key) {
        ledger.insert(decode_utf8(key))
    } else {
        ledger
    }
}

/// The ledger after an event of the transport: a gossip message and a file
/// that came in change it, nothing else does.
pub open spec fn ledger_after_swarm(ledger: Set<Seq<char>>, event: SwarmEvent) -> Set<Seq<char>> {
    match event {
        SwarmEvent::Message { data, .. } => ledger_after_message(ledger, decode_message(data@)),
        SwarmEvent::FileReceived { key, payload } => ledger_after_response(ledger, key@, payload@),
        _ => ledger,
    }
}

/// No feedback loop after a transfer. After a file has come in for the
/// content key of a file, the next change that the watcher sees at the path
/// of that file leads to no action at all, so to no publishing, and clears
/// the ledger's entry of the path.
pub proof fn lemma_no_feedback_after_transfer(
    ledger: Set<Seq<char>>,
    payload: Seq<u8>,
    peer: Seq<u8>,
    command: Command,
    home: Seq<char>,
    patch: Seq<char>,
    snapshot: Snapshot,
    now: i64,
)
    requires
        decode_response(payload) is Some,
        watched(command, home) is Some,
    ensures
        ({
            let file = watched(command, home).unwrap().1;
            let after = ledger_after_response(ledger, key_of(file), payload);
            &&& watch_actions(after, peer, command, home, patch, snapshot, now) == Seq::<
                ActionView,
            >::empty()
            &&& !ledger_after_watch(after, command, home).contains(relative_of(file))
        }),
{
    let file = watched(command, home).unwrap().1;
    encode_utf8_valid_utf8(relative_of(file));
    encode_utf8_decode_utf8(relative_of(file));
}

/// The content key for which the store and the disk are to be read before
/// an event of the transport is handled.
pub open spec fn swarm_key(event: SwarmEvent) -> Option<Seq<u8>> {
    match event {
        SwarmEvent::Message { data, .. } => message_key(decode_message(data@)),
        SwarmEvent::GetRecord { result } => lookup_key(result),
        SwarmEvent::FileRequested { key } => Some(key@),
        SwarmEvent::FileReceived { key, .. } => Some(key@),
        _ => None,
    }
}

/// The content key that a gossip message concerns, if it concerns one.
pub fn key_of_message(data: &Vec<u8>) -> (res: Option<Vec<u8>>)
    ensures
        opt_bytes_view(res) == message_key(decode_message(data@)),
{
    match from_bytes(copy_bytes(data)) {
        Some(Messages::Pushed { path, .. }) => Some(path.as_str().as_bytes_vec()),
        Some(Messages::Added { path, .. }) => Some(path.as_str().as_bytes_vec()),
        Some(Messages::Changed { path, .. }) => Some(path.as_str().as_bytes_vec()),
        Some(Messages::Removed { path, .. }) => Some(path.as_str().as_bytes_vec()),
        _ => None,
    }
}

/// The content key for which the store and the disk are to be read before
/// an event of the transport is handled.
pub fn key_of_event(event: &SwarmEvent) -> (res: Option<Vec<u8>>)
    ensures
        opt_bytes_view(res) == swarm_key(*event),
{
    match event {
        SwarmEvent::Message { data, .. } => key_of_message(data),
        SwarmEvent::GetRecord { result } => key_of_lookup(result),
        SwarmEvent::FileRequested { key } => Some(copy_bytes(key)),
        SwarmEvent::FileReceived { key, .. } => Some(copy_bytes(key)),
        _ => None,
    }
}

fn one_action(action: Action) -> (res: Vec<Action>)
    ensures
        views(res@) == seq![action@],
{
    let mut out: Vec<Action> = Vec::new();
    out.push(action);
    proof {
        assert(views(out@) =~= seq![action@]);
    }
    out
}

fn request_from_origin(peerid: &Vec<u8>, path: &String) -> (res: Vec<Action>)
    ensures
        views(res@) == seq![ActionView::RequestFile { peer: peerid@, key: encode_utf8(path@) }],
{
    one_action(
        Action::RequestFile { peer: copy_bytes(peerid), key: path.as_str().as_bytes_vec() },
    )
}

fn changed_actions(
    path: &String,
    patch: &String,
    peerid: &Vec<u8>,
    snapshot: &Snapshot,
    now: i64,
) -> (res: Vec<Action>)
    ensures
        views(res@) == message_actions(
            Some(MessageView::Changed { path: path@, patch: patch@, peerid: peerid@ }),
            *snapshot,
            now,
        ),
{
    let key = path.as_str().as_bytes_vec();
    let disk = disk_hash(key.as_slice(), &snapshot.content);
    let applies = match &snapshot.declared_previous {
        Some(h) => *h == disk,
        None => false,
    };
    if applies {
        one_action(Action::ApplyPatch { path: path.clone(), patch: patch.clone() })
    } else {
        request_from_origin(peerid, path)
    }
}

fn removed_actions(path: &String, peerid: &Vec<u8>, snapshot: &Snapshot, now: i64) -> (res: Vec<
    Action,
>)
    ensures
        views(res@) == message_actions(
            Some(MessageView::Removed { path: path@, peerid: peerid@ }),
            *snapshot,
            now,
        ),
{
    let local = stored_entry(snapshot);
    let previous = match &local {
        Some(l) => Some(l.current.clone()),
        None => None,
    };
    let mark = DhtEntry { current: "no_file".to_owned(), previous, timestamp: now };
    let mut out: Vec<Action> = Vec::new();
    out.push(Action::DeleteFile { path: path.clone() });
    out.push(Action::StorePut { key: path.as_str().as_bytes_vec(), value: mark.to_bytes() });
    proof {
        assert(views(out@) =~= seq![
            ActionView::DeleteFile { path: path@ },
            ActionView::StorePut {
                key: encode_utf8(path@),
                value: enc_entry(tombstone(local_entry(*snapshot), now)),
            },
        ]);
    }
    out
}

fn probe_actions(filepath: &Vec<u8>, timestamp: i64, snapshot: &Snapshot, now: i64) -> (res: Vec<
    Action,
>)
    ensures
        views(res@) == message_actions(
            Some(MessageView::FileCheck { filepath: filepath@, timestamp }),
            *snapshot,
            now,
        ),
{
    match FilePath::struct_from_bytes(copy_bytes(filepath)) {
        None => one_action(Action::Report { notice: Notice::MalformedMessage }),
        Some(file) => one_action(Action::OverlayGet { key: file.to_bytes() }),
    }
}

/// What is to be done about a change notice that came in, at time `now`.
pub fn notice_actions(message: &Messages, snapshot: &Snapshot, now: i64) -> (res: Vec<Action>)
    ensures
        views(res@) == message_actions(Some(message@), *snapshot, now),
{
    match message {
        Messages::Pushed { path, peerid } => request_from_origin(peerid, path),
        Messages::Added { path, peerid } => request_from_origin(peerid, path),
        Messages::Changed { path, patch, peerid } => changed_actions(
            path,
            patch,
            peerid,
            snapshot,
            now,
        ),
        Messages::Removed { path, peerid } => removed_actions(path, peerid, snapshot, now),
        Messages::FileCheck { filepath, timestamp } => probe_actions(
            filepath,
            *timestamp,
            snapshot,
            now,
        ),
        Messages::FileUpdate { .. } => one_action(Action::Report { notice: Notice::Unhandled }),
    }
}

impl NetworkEvent {
    /// The ledger and the set of files are well-formed.
    pub open spec fn wf(&self) -> bool {
        self.transfer_pending.wf() && self.key_2_filepath.wf()
    }

    /// An engine for the node with the given identity, with the given ledger
    /// and files, and no watched directories yet.
    pub fn new(
        local_peer: Vec<u8>,
        transfer_pending: PendingTransferLedger,
        key_2_filepath: TrackedFiles,
    ) -> (res: Self)
        requires
            transfer_pending.wf(),
            key_2_filepath.wf(),
        ensures
            res.wf(),
            res.local_peer == local_peer,
            res.transfer_pending == transfer_pending,
            res.key_2_filepath == key_2_filepath,
            res.dirs@.len() == 0,
    {
        NetworkEvent { local_peer, transfer_pending, key_2_filepath, dirs: Vec::new() }
    }

    /// The files among the entries that a walk of the watched directories
    /// found. Each entry is a path with the mark of whether it is a
    /// directory.
    pub fn get_files_from_dirs(&self, home: &String, entries: &Vec<(String, bool)>) -> (res: Vec<
        FilePath,
    >)
        ensures
            file_views(res@) == walked_files(home@, entries@),
    {
        files_from_walk(home, entries)
    }

    /// Enters each of the files into the set of tracked files, under its
    /// content key.
    pub fn update_filepaths(&mut self, files: &Vec<FilePath>)
        requires
            old(self).wf(),
        ensures
            final(self).wf(),
            final(self).key_2_filepath@ == insert_all(old(self).key_2_filepath@, files@),
            final(self).transfer_pending == old(self).transfer_pending,
            final(self).local_peer == old(self).local_peer,
            final(self).dirs == old(self).dirs,
    {
        let mut i: usize = 0;
        proof {
            assert(files@.take(0) =~= Seq::<FilePath>::empty());
        }
        while i < files.len()
            invariant
                i <= files@.len(),
                self.wf(),
                self.key_2_filepath@ == insert_all(
                    old(self).key_2_filepath@,
                    files@.take(i as int),
                ),
                self.transfer_pending == old(self).transfer_pending,
                self.local_peer == old(self).local_peer,
                self.dirs == old(self).dirs,
            decreases files@.len() - i,
        {
            proof {
                assert(files@.take(i + 1).drop_last() =~= files@.take(i as int));
                assert(files@.take(i + 1).last() == files@[i as int]);
            }
            self.key_2_filepath.insert(copy_file_path(&files[i]));
            i += 1;
        }
        proof {
            assert(files@.take(files@.len() as int) =~= files@);
        }
    }

    /// The reconciliation sweep at time `now`, run when a peer has joined:
    /// the files are entered into the set of tracked files, and for each
    /// file its content key is looked up in the overlay and a probe is
    /// published.
    pub fn add_peer_check(&mut self, files: &Vec<FilePath>, now: i64) -> (res: Vec<Action>)
        requires
            old(self).wf(),
        ensures
            final(self).wf(),
            final(self).key_2_filepath@ == insert_all(old(self).key_2_filepath@, files@),
            final(self).transfer_pending == old(self).transfer_pending,
            final(self).local_peer == old(self).local_peer,
            final(self).dirs == old(self).dirs,
            views(res@) == sweep_actions(files@, now),
    {
        self.update_filepaths(files);
        let mut out: Vec<Action> = Vec::new();
        let mut i: usize = 0;
        proof {
            assert(files@.take(0) =~= Seq::<FilePath>::empty());
            assert(views(out@) =~= sweep_actions(files@.take(0), now));
        }
        while i < files.len()
            invariant
                i <= files@.len(),
                views(out@) == sweep_actions(files@.take(i as int), now),
            decreases files@.len() - i,
        {
            let ghost before = views(out@);
            let file = &files[i];
            proof {
                assert(files@.take(i + 1).drop_last() =~= files@.take(i as int));
                assert(files@.take(i + 1).last() == files@[i as int]);
            }
            push_action(&mut out, Action::OverlayGet { key: file.to_bytes() });
            let check = Messages::FileCheck { filepath: file.struct_to_bytes(), timestamp: now };
            push_action(&mut out, Action::Publish { data: to_bytes(check) });
            proof {
                assert(views(out@) =~= before + seq![
                    ActionView::OverlayGet { key: file.key() },
                    ActionView::Publish { data: enc_message(probe(file@, now)) },
                ]);
            }
            i += 1;
        }
        proof {
            assert(files@.take(files@.len() as int) =~= files@);
        }
        out
    }

    /// The reconciliation sweep that is run when the node starts, at time
    /// `now`: the same sweep as when a peer has joined.
    pub fn startup_check(&mut self, files: &Vec<FilePath>, now: i64) -> (res: Vec<Action>)
        requires
            old(self).wf(),
        ensures
            final(self).wf(),
            final(self).key_2_filepath@ == insert_all(old(self).key_2_filepath@, files@),
            final(self).transfer_pending == old(self).transfer_pending,
            final(self).local_peer == old(self).local_peer,
            final(self).dirs == old(self).dirs,
            views(res@) == sweep_actions(files@, now),
    {
        self.add_peer_check(files, now)
    }

    /// The reconciliation sweep at time `now`, run for each new peer.
    pub fn sync(&mut self, files: &Vec<FilePath>, now: i64) -> (res: Vec<Action>)
        requires
            old(self).wf(),
        ensures
            final(self).wf(),
            final(self).key_2_filepath@ == insert_all(old(self).key_2_filepath@, files@),
            final(self).transfer_pending == old(self).transfer_pending,
            final(self).local_peer == old(self).local_peer,
            final(self).dirs == old(self).dirs,
            views(res@) == sweep_actions(files@, now),
    {
        self.add_peer_check(files, now)
    }

    /// The request for the file under `key` from `peer`.
    pub fn request_file(&self, peer: &Vec<u8>, key: &Vec<u8>) -> (res: Action)
        ensures
            res@ == (ActionView::RequestFile { peer: peer@, key: key@ }),
    {
        Action::RequestFile { peer: copy_bytes(peer), key: copy_bytes(key) }
    }

    /// Handles a gossip message at time `now`.
    pub fn handle_message(&mut self, data: &Vec<u8>, snapshot: &Snapshot, now: i64) -> (res:
        Vec<Action>)
        requires
            old(self).wf(),
        ensures
            final(self).wf(),
            final(self).transfer_pending@ == ledger_after_message(
                old(self).transfer_pending@,
                decode_message(data@),
            ),
            final(self).key_2_filepath == old(self).key_2_filepath,
            final(self).local_peer == old(self).local_peer,
            final(self).dirs == old(self).dirs,
            views(res@) == message_actions(decode_message(data@), *snapshot, now),
    {
        match from_bytes(copy_bytes(data)) {
            None => {
                let mut out: Vec<Action> = Vec::new();
                proof {
                    assert(views(out@) =~= Seq::<ActionView>::empty());
                }
                push_report(&mut out, Notice::MalformedMessage);
                proof {
                    assert(views(out@) =~= report(Notice::MalformedMessage));
                }
                out
            },
            Some(message) => {
                let out = notice_actions(&message, snapshot, now);
                match message {
                    Messages::Pushed { path, .. } => self.transfer_pending.insert(path),
                    Messages::Added { path, .. } => self.transfer_pending.insert(path),
                    Messages::Changed { path, .. } => self.transfer_pending.insert(path),
                    Messages::Removed { path, .. } => self.transfer_pending.insert(path),
                    Messages::FileCheck { .. } => {},
                    Messages::FileUpdate { .. } => {},
                }
                out
            },
        }
    }

    /// Handles a change on disk that the watcher reports, at time `now`.
    /// `home` is the home directory that paths are relative to, and `patch`
    /// what leads from the previous content to the new one, for a change.
    pub fn handle_watch(
        &mut self,
        command: &Command,
        home: &String,
        patch: &String,
        snapshot: &Snapshot,
        now: i64,
    ) -> (res: Vec<Action>)
        requires
            old(self).wf(),
        ensures
            final(self).wf(),
            final(self).transfer_pending@ == ledger_after_watch(
                old(self).transfer_pending@,
                *command,
                home@,
            ),
            final(self).key_2_filepath == old(self).key_2_filepath,
            final(self).local_peer == old(self).local_peer,
            final(self).dirs == old(self).dirs,
            views(res@) == watch_actions(
                old(self).transfer_pending@,
                old(self).local_peer@,
                *command,
                home@,
                patch@,
                *snapshot,
                now,
            ),
    {
        let mut out: Vec<Action> = Vec::new();
        proof {
            assert(views(out@) =~= Seq::<ActionView>::empty());
        }
        let (kind, full) = match command {
            Command::EditFileAdd { path } => (WatchKind::Added, path.clone()),
            Command::EditFileChange { path } => (WatchKind::Changed, path.clone()),
            Command::EditFileDelete { path } => (WatchKind::Removed, path.clone()),
            _ => {
                push_report(&mut out, Notice::Unhandled);
                return out;
            },
        };
        let file = FilePath { home: home.clone(), full };
        let relative = file.sub_home();
        if self.transfer_pending.remove(&relative) {
            return out;
        }
        let key = file.to_bytes();
        let peer = copy_bytes(&self.local_peer);
        let notice = match kind {
            WatchKind::Added => Messages::Added { path: relative, peerid: peer },
            WatchKind::Changed => Messages::Changed {
                path: relative,
                patch: patch.clone(),
                peerid: peer,
            },
            WatchKind::Removed => Messages::Removed { path: relative, peerid: peer },
        };
        let local = stored_entry(snapshot);
        let previous = match &local {
            Some(l) => Some(l.current.clone()),
            None => None,
        };
        let record = DhtEntry {
            current: disk_hash(key.as_slice(), &snapshot.content),
            previous,
            timestamp: now,
        };
        let value = record.to_bytes();
        push_action(&mut out, Action::Publish { data: to_bytes(notice) });
        push_action(
            &mut out,
            Action::StorePut { key: copy_bytes(&key), value: copy_bytes(&value) },
        );
        push_action(&mut out, Action::OverlayPut { key, value });
        proof {
            assert(views(out@) =~= watch_actions(
                old(self).transfer_pending@,
                old(self).local_peer@,
                *command,
                home@,
                patch@,
                *snapshot,
                now,
            ));
        }
        out
    }

    /// Handles the operator's command to push: the records of `store`, which
    /// are what the local store holds for the tracked files, are announced
    /// as `push_actions` says, for the one path that the command names or,
    /// where it names none, for every tracked file.
    pub fn handle_cli(&self, command: &CliCommand, store: &Vec<Record>) -> (res: Vec<Action>)
        requires
            self.wf(),
        ensures
            views(res@) == push_actions(
                self.key_2_filepath@,
                self.local_peer@,
                command@.push,
                store@,
            ),
    {
        let mut out: Vec<Action> = Vec::new();
        let mut i: usize = 0;
        proof {
            assert(store@.take(0) =~= Seq::<Record>::empty());
            assert(views(out@) =~= Seq::<ActionView>::empty());
        }
        while i < store.len()
            invariant
                i <= store@.len(),
                self.wf(),
                views(out@) == push_actions(
                    self.key_2_filepath@,
                    self.local_peer@,
                    command@.push,
                    store@.take(i as int),
                ),
            decreases store@.len() - i,
        {
            let ghost before = views(out@);
            let record = &store[i];
            proof {
                assert(store@.take(i + 1).drop_last() =~= store@.take(i as int));
                assert(store@.take(i + 1).last() == store@[i as int]);
            }
            if let Some(file) = self.key_2_filepath.get(record.key.as_slice()) {
                let relative = file.sub_home();
                let concerned = match &command.Push {
                    None => true,
                    Some(path) => relative == *path,
                };
                if concerned {
                    let notice = Messages::Pushed {
                        path: relative,
                        peerid: copy_bytes(&self.local_peer),
                    };
                    push_action(
                        &mut out,
                        Action::OverlayPut {
                            key: copy_bytes(&record.key),
                            value: copy_bytes(&record.value),
                        },
                    );
                    push_action(&mut out, Action::Publish { data: to_bytes(notice) });
                    proof {
                        assert(views(out@) =~= before + seq![
                            ActionView::OverlayPut { key: record.key@, value: record.value@ },
                            ActionView::Publish {
                                data: enc_message(
                                    MessageView::Pushed {
                                        path: relative_of(self.key_2_filepath@[record.key@]),
                                        peerid: self.local_peer@,
                                    },
                                ),
                            },
                        ]);
                    }
                }
            }
            proof {
                assert(views(out@) =~= push_actions(
                    self.key_2_filepath@,
                    self.local_peer@,
                    command@.push,
                    store@.take(i + 1),
                ));
            }
            i += 1;
        }
        proof {
            assert(store@.take(store@.len() as int) =~= store@);
        }
        out
    }

    /// Handles an internal command at time `now`: when a peer has joined,
    /// the reconciliation sweep over `files` is run. Any other command is
    /// reported as not handled.
    pub fn handle_command(&mut self, command: &Command, files: &Vec<FilePath>, now: i64) -> (res:
        Vec<Action>)
        requires
            old(self).wf(),
        ensures
            final(self).wf(),
            final(self).transfer_pending == old(self).transfer_pending,
            final(self).local_peer == old(self).local_peer,
            final(self).dirs == old(self).dirs,
            *command is NewPeer ==> final(self).key_2_filepath@ == insert_all(
                old(self).key_2_filepath@,
                files@,
            ) && views(res@) == sweep_actions(files@, now),
            !(*command is NewPeer) ==> final(self).key_2_filepath == old(self).key_2_filepath
                && views(res@) == report(Notice::Unhandled),
    {
        match command {
            Command::NewPeer => self.add_peer_check(files, now),
            _ => {
                let mut out: Vec<Action> = Vec::new();
                proof {
                    assert(views(out@) =~= Seq::<ActionView>::empty());
                }
                push_report(&mut out, Notice::Unhandled);
                out
            },
        }
    }

    /// Handles an event of the transport at time `now`. `snapshot` is what
    /// the node holds for the key that the event concerns.
    pub fn handle_swarm(&mut self, event: &SwarmEvent, snapshot: &Snapshot, now: i64) -> (res:
        Vec<Action>)
        requires
            old(self).wf(),
        ensures
            final(self).wf(),
            final(self).transfer_pending@ == ledger_after_swarm(
                old(self).transfer_pending@,
                *event,
            ),
            final(self).key_2_filepath == old(self).key_2_filepath,
            final(self).local_peer == old(self).local_peer,
            final(self).dirs == old(self).dirs,
            views(res@) == swarm_actions(*event, *snapshot, now),
    {
        let mut out: Vec<Action> = Vec::new();
        proof {
            assert(views(out@) =~= Seq::<ActionView>::empty());
        }
        match event {
            SwarmEvent::NewListenAddr { .. } => {
                push_report(&mut out, Notice::Listening);
            },
            SwarmEvent::Message { data, .. } => {
                return self.handle_message(data, snapshot, now);
            },
            SwarmEvent::Discovered { peers } => {
                let mut i: usize = 0;
                proof {
                    assert(peers@.take(0) =~= Seq::<Peer>::empty());
                }
                while i < peers.len()
                    invariant
                        i <= peers@.len(),
                        views(out@) == added_peers(peers@.take(i as int)),
                    decreases peers@.len() - i,
                {
                    proof {
                        assert(peers@.take(i + 1).drop_last() =~= peers@.take(i as int));
                        assert(peers@.take(i + 1).last() == peers@[i as int]);
                    }
                    push_action(
                        &mut out,
                        Action::AddPeer {
                            id: copy_bytes(&peers[i].id),
                            address: peers[i].address.clone(),
                        },
                    );
                    i += 1;
                }
                proof {
                    assert(peers@.take(peers@.len() as int) =~= peers@);
                }
                push_action(&mut out, Action::EnqueueNewPeer);
            },
            SwarmEvent::Expired { peers } => {
                let mut i: usize = 0;
                proof {
                    assert(peers@.take(0) =~= Seq::<Peer>::empty());
                }
                while i < peers.len()
                    invariant
                        i <= peers@.len(),
                        views(out@) == removed_peers(peers@.take(i as int)),
                    decreases peers@.len() - i,
                {
                    proof {
                        assert(peers@.take(i + 1).drop_last() =~= peers@.take(i as int));
                        assert(peers@.take(i + 1).last() == peers@[i as int]);
                    }
                    push_action(
                        &mut out,
                        Action::RemovePeer {
                            id: copy_bytes(&peers[i].id),
                            address: peers[i].address.clone(),
                        },
                    );
                    i += 1;
                }
                proof {
                    assert(peers@.take(peers@.len() as int) =~= peers@);
                }
            },
            SwarmEvent::GetProvidersOk { .. } => {
                push_report(&mut out, Notice::ProvidersFound);
            },
            SwarmEvent::GetProvidersFailed => {
                push_report(&mut out, Notice::ProvidersFailed);
            },
            SwarmEvent::GetRecord { result } => {
                return get_record(result, snapshot, now);
            },
            SwarmEvent::PutRecordOk { .. } => {
                push_report(&mut out, Notice::PutSucceeded);
            },
            SwarmEvent::PutRecordFailed => {
                push_report(&mut out, Notice::PutFailed);
            },
            SwarmEvent::StartProvidingOk { .. } => {
                push_report(&mut out, Notice::ProvidingSucceeded);
            },
            SwarmEvent::StartProvidingFailed => {
                push_report(&mut out, Notice::ProvidingFailed);
            },
            SwarmEvent::FileRequested { .. } => {
                let local = stored_entry(snapshot);
                match (&snapshot.content, local) {
                    (Some(content), Some(entry)) => {
                        let response = ResponseData { metadata: entry, data: copy_bytes(content) };
                        push_action(&mut out, Action::RespondFile { data: response.to_bytes() });
                    },
                    _ => {
                        push_report(&mut out, Notice::NothingToSend);
                    },
                }
            },
            SwarmEvent::FileReceived { key, payload } => {
                match ResponseData::from_bytes(copy_bytes(payload)) {
                    None => {
                        push_report(&mut out, Notice::MalformedResponse);
                    },
                    Some(response) => {
                        let value = response.metadata.to_bytes();
                        push_action(
                            &mut out,
                            Action::WriteFile { key: copy_bytes(key), data: response.data },
                        );
                        push_action(
                            &mut out,
                            Action::StorePut { key: copy_bytes(key), value: copy_bytes(&value) },
                        );
                        push_action(&mut out, Action::OverlayPut { key: copy_bytes(key), value });
                        if let Some(path) = text_of_utf8(copy_bytes(key)) {
                            self.transfer_pending.insert(path);
                        }
                    },
                }
            },
            SwarmEvent::Other => {},
        }
        proof {
            assert(views(out@) =~= swarm_actions(*event, *snapshot, now));
        }
        out
    }
}

} // verus!
