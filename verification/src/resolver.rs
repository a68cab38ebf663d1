//! The conflict resolver: one pure decision from what the local store, the
//! overlay and the disk say about a file.
//!
//! The decision does not depend on how the three answers were obtained or on
//! anything that happened before: the same answers always give the same
//! decision, so replaying an overlay reply converges instead of oscillating.

use crate::bencode::opt_view;
use crate::dht::{no_file, DhtEntry, EntryView};
use vstd::prelude::*;
use vstd::string::*;

verus! {

/// Why an overlay lookup gave no record.
#[derive(Debug, Clone, Copy, PartialEq, Eq, Structural)]
pub enum LookupError {
    /// No peer holds a record under the key.
    NotFound,
    /// Too few peers replied. With the weakest quorum this is not expected.
    QuorumFailed,
    /// The lookup ran out of time.
    Timeout,
}

/// The row of the decision table that applied.
#[derive(Debug, Clone, Copy, PartialEq, Eq, Structural)]
pub enum Outcome {
    /// Nobody has a record and nothing is on disk: nothing to do.
    NothingKnown,
    /// The overlay has no record but the file is on disk: a record was made
    /// for both stores.
    Bootstrapped,
    /// The lookup failed: nothing is done until the next sweep.
    LookupFailed(LookupError),
    /// There was no local record and the disk agrees with the overlay: the
    /// overlay's record goes into the local store.
    AdoptedRemote,
    /// The file is asked for from the peer that holds the overlay's record.
    RequestedRemote,
    /// Disk and overlay agree but the local store had fallen behind: a fresh
    /// record goes to both stores.
    Refreshed,
    /// All three agree on the content but not on the time: the later time
    /// goes to both stores.
    Merged,
    /// All three agree on content and time.
    InSync,
    /// The disk differs from the overlay and the local record is newer: the
    /// local state is announced to the overlay.
    LocalWins,
    /// The disk differs from the overlay and both records carry the same
    /// time: no winner is picked, the condition is reported.
    Conflict,
}

/// What the resolver decided: the row that applied, and what is to be done.
#[derive(Debug, PartialEq, Eq)]
pub struct Resolution {
    pub outcome: Outcome,
    /// The record to write to the local store, if any.
    pub store_write: Option<DhtEntry>,
    /// The record to put to the overlay, if any.
    pub overlay_write: Option<DhtEntry>,
    /// Whether the file is to be requested from the peer of the overlay's
    /// record.
    pub request_file: bool,
}

/// A decision, as mathematical values.
pub struct ResolutionView {
    pub outcome: Outcome,
    pub store_write: Option<EntryView>,
    pub overlay_write: Option<EntryView>,
    pub request_file: bool,
}

/// The view of an optional record.
pub open spec fn opt_entry_view(o: Option<DhtEntry>) -> Option<EntryView> {
    match o {
        None => None,
        Some(e) => Some(e@),
    }
}

/// The view of the answer of an overlay lookup.
pub open spec fn lookup_view(r: Result<DhtEntry, LookupError>) -> Result<EntryView, LookupError> {
    match r {
        Ok(e) => Ok(e@),
        Err(x) => Err(x),
    }
}

impl View for Resolution {
    type V = ResolutionView;

    open spec fn view(&self) -> ResolutionView {
        ResolutionView {
            outcome: self.outcome,
            store_write: opt_entry_view(self.store_write),
            overlay_write: opt_entry_view(self.overlay_write),
            request_file: self.request_file,
        }
    }
}

/// A decision that changes nothing.
pub open spec fn idle(outcome: Outcome) -> ResolutionView {
    ResolutionView { outcome, store_write: None, overlay_write: None, request_file: false }
}

/// A decision that writes one record to both stores.
pub open spec fn write_both(outcome: Outcome, record: EntryView) -> ResolutionView {
    ResolutionView {
        outcome,
        store_write: Some(record),
        overlay_write: Some(record),
        request_file: false,
    }
}

/// The later of two times.
pub open spec fn later(a: i64, b: i64) -> i64 {
    if a >= b {
        a
    } else {
        b
    }
}

/// The decision table. `local` is the record of the local store, `remote` the
/// answer of the overlay, `disk` the hash of what is on disk (`no_file` where
/// nothing is), `now` the time of the evaluation. The rows are tried in this
/// order, and the first that applies decides:
///
/// - The overlay has no record. With a file on disk a record is made for
///   both stores: from the local record's `previous` and `timestamp` where
///   there is one, fresh at `now` otherwise. Without a file nothing is done.
/// - The lookup failed otherwise: nothing is done.
/// - The overlay has a record and the local store has none. With no local
///   time to set against it the overlay's record counts as the more current
///   one: where the disk differs from it the file is requested, where the
///   disk agrees the record goes into the local store.
/// - Disk and overlay agree but the local record names another hash: a
///   record stamped `now`, superseding the local hash, goes to both stores.
/// - All three agree on the hash: where the times differ, the later time
///   goes to both stores, with the `previous` of the overlay's record.
/// - The disk differs from the overlay. The newer record wins: the file is
///   requested where the overlay's is newer, the local state is put to the
///   overlay where the local one is newer, and equal times are a conflict
///   in which nothing is written. Where nothing is on disk the file is
///   requested in each of the three cases.
pub open spec fn decide(
    local: Option<EntryView>,
    remote: Result<EntryView, LookupError>,
    disk: Seq<char>,
    now: i64,
) -> ResolutionView {
    match remote {
        Err(LookupError::NotFound) => {
            if disk == no_file() {
                idle(Outcome::NothingKnown)
            } else {
                match local {
                    Some(l) => write_both(
                        Outcome::Bootstrapped,
                        EntryView { current: disk, previous: l.previous, timestamp: l.timestamp },
                    ),
                    None => write_both(
                        Outcome::Bootstrapped,
                        EntryView { current: disk, previous: None, timestamp: now },
                    ),
                }
            }
        },
        Err(e) => idle(Outcome::LookupFailed(e)),
        Ok(r) => match local {
            None => {
                if disk != r.current {
                    ResolutionView {
                        outcome: Outcome::RequestedRemote,
                        store_write: None,
                        overlay_write: None,
                        request_file: true,
                    }
                } else {
                    ResolutionView {
                        outcome: Outcome::AdoptedRemote,
                        store_write: Some(r),
                        overlay_write: None,
                        request_file: false,
                    }
                }
            },
            Some(l) => {
                if disk == r.current && disk != l.current {
                    write_both(
                        Outcome::Refreshed,
                        EntryView { current: disk, previous: Some(l.current), timestamp: now },
                    )
                } else if disk == r.current {
                    if l.timestamp != r.timestamp {
                        write_both(
                            Outcome::Merged,
                            EntryView {
                                current: disk,
                                previous: r.previous,
                                timestamp: later(l.timestamp, r.timestamp),
                            },
                        )
                    } else {
                        idle(Outcome::InSync)
                    }
                } else if r.timestamp > l.timestamp {
                    ResolutionView {
                        outcome: Outcome::RequestedRemote,
                        store_write: None,
                        overlay_write: None,
                        request_file: true,
                    }
                } else if l.timestamp > r.timestamp {
                    ResolutionView {
                        outcome: Outcome::LocalWins,
                        store_write: None,
                        overlay_write: Some(
                            EntryView {
                                current: disk,
                                previous: Some(r.current),
                                timestamp: l.timestamp,
                            },
                        ),
                        request_file: disk == no_file(),
                    }
                } else {
                    ResolutionView {
                        outcome: Outcome::Conflict,
                        store_write: None,
                        overlay_write: None,
                        request_file: disk == no_file(),
                    }
                }
            },
        },
    }
}

/// A copy of an optional text.
pub fn copy_opt_text(o: &Option<String>) -> (res: Option<String>)
    ensures
        opt_view(res) == opt_view(*o),
{
    match o {
        None => None,
        Some(t) => Some(t.clone()),
    }
}

/// A copy of a record.
pub fn copy_entry(e: &DhtEntry) -> (res: DhtEntry)
    ensures
        res@ == e@,
{
    DhtEntry {
        current: e.current.clone(),
        previous: copy_opt_text(&e.previous),
        timestamp: e.timestamp,
    }
}

/// Whether a hash is the mark for "no file".
pub fn is_no_file(hash: &String) -> (res: bool)
    ensures
        res == (hash@ == no_file()),
{
    let mark = "no_file".to_owned();
    *hash == mark
}

fn idle_exec(outcome: Outcome) -> (res: Resolution)
    ensures
        res@ == idle(outcome),
{
    Resolution { outcome, store_write: None, overlay_write: None, request_file: false }
}

fn write_both_exec(outcome: Outcome, record: DhtEntry) -> (res: Resolution)
    ensures
        res@ == write_both(outcome, record@),
{
    let second = copy_entry(&record);
    Resolution {
        outcome,
        store_write: Some(record),
        overlay_write: Some(second),
        request_file: false,
    }
}

/// Decides what to do about one file, by the decision table `decide`.
pub fn resolve(
    local: &Option<DhtEntry>,
    remote: &Result<DhtEntry, LookupError>,
    disk: &String,
    now: i64,
) -> (res: Resolution)
    ensures
        res@ == decide(opt_entry_view(*local), lookup_view(*remote), disk@, now),
{
    match remote {
        Err(LookupError::NotFound) => {
            if is_no_file(disk) {
                return idle_exec(Outcome::NothingKnown);
            }
            let record = match local {
                Some(l) => DhtEntry {
                    current: disk.clone(),
                    previous: copy_opt_text(&l.previous),
                    timestamp: l.timestamp,
                },
                None => DhtEntry { current: disk.clone(), previous: None, timestamp: now },
            };
            write_both_exec(Outcome::Bootstrapped, record)
        },
        Err(e) => idle_exec(Outcome::LookupFailed(*e)),
        Ok(r) => match local {
            None => {
                if *disk != r.current {
                    Resolution {
                        outcome: Outcome::RequestedRemote,
                        store_write: None,
                        overlay_write: None,
                        request_file: true,
                    }
                } else {
                    Resolution {
                        outcome: Outcome::AdoptedRemote,
                        store_write: Some(copy_entry(r)),
                        overlay_write: None,
                        request_file: false,
                    }
                }
            },
            Some(l) => {
                let agrees_remote = *disk == r.current;
                if agrees_remote && *disk != l.current {
                    write_both_exec(
                        Outcome::Refreshed,
                        DhtEntry {
                            current: disk.clone(),
                            previous: Some(l.current.clone()),
                            timestamp: now,
                        },
                    )
                } else if agrees_remote {
                    if l.timestamp != r.timestamp {
                        let latest = if l.timestamp >= r.timestamp {
                            l.timestamp
                        } else {
                            r.timestamp
                        };
                        write_both_exec(
                            Outcome::Merged,
                            DhtEntry {
                                current: disk.clone(),
                                previous: copy_opt_text(&r.previous),
                                timestamp: latest,
                            },
                        )
                    } else {
                        idle_exec(Outcome::InSync)
                    }
                } else if r.timestamp > l.timestamp {
                    Resolution {
                        outcome: Outcome::RequestedRemote,
                        store_write: None,
                        overlay_write: None,
                        request_file: true,
                    }
                } else if l.timestamp > r.timestamp {
                    Resolution {
                        outcome: Outcome::LocalWins,
                        store_write: None,
                        overlay_write: Some(
                            DhtEntry {
                                current: disk.clone(),
                                previous: Some(r.current.clone()),
                                timestamp: l.timestamp,
                            },
                        ),
                        request_file: is_no_file(disk),
                    }
                } else {
                    Resolution {
                        outcome: Outcome::Conflict,
                        store_write: None,
                        overlay_write: None,
                        request_file: is_no_file(disk),
                    }
                }
            },
        },
    }
}

/// Convergence. Where the disk and both records agree on the hash `h` and
/// the two records differ in time, the decision is one merged record with
/// hash `h` and the later of the two times, written to both stores; and the
/// hash, the time and the stores written to are the same when the two
/// records change places.
pub proof fn lemma_merge_converges(a: EntryView, b: EntryView, now: i64)
    requires
        a.current == b.current,
        a.timestamp != b.timestamp,
    ensures
        ({
            let d = decide(Some(a), Ok(b), a.current, now);
            let e = decide(Some(b), Ok(a), a.current, now);
            &&& d.outcome == Outcome::Merged
            &&& d.store_write is Some
            &&& d.store_write == d.overlay_write
            &&& !d.request_file
            &&& d.store_write.unwrap().current == a.current
            &&& d.store_write.unwrap().timestamp == later(a.timestamp, b.timestamp)
            &&& e.outcome == d.outcome
            &&& e.store_write is Some
            &&& e.store_write == e.overlay_write
            &&& e.request_file == d.request_file
            &&& e.store_write.unwrap().current == d.store_write.unwrap().current
            &&& e.store_write.unwrap().timestamp == d.store_write.unwrap().timestamp
        }),
{
}

/// Where the disk and both records agree on hash and time, nothing is
/// written and nothing requested, whichever record is the local one.
pub proof fn lemma_in_sync_is_idle(a: EntryView, b: EntryView, now: i64)
    requires
        a.current == b.current,
        a.timestamp == b.timestamp,
    ensures
        decide(Some(a), Ok(b), a.current, now) == idle(Outcome::InSync),
        decide(Some(b), Ok(a), a.current, now) == idle(Outcome::InSync),
{
}

/// Bootstrap. Where the overlay has no record, the local store is empty and
/// a file is on disk, the decision is a fresh record of the disk's hash at
/// `now`, superseding nothing, written to both stores.
pub proof fn lemma_not_found_bootstrap(disk: Seq<char>, now: i64)
    requires
        disk != no_file(),
    ensures
        decide(None, Err(LookupError::NotFound), disk, now) == write_both(
            Outcome::Bootstrapped,
            EntryView { current: disk, previous: None, timestamp: now },
        ),
{
}

/// Conflict. Where the local record and the overlay's record carry the same
/// time but different hashes, and the disk holds what the local record
/// names, the decision is the reported conflict and writes nothing.
pub proof fn lemma_equal_time_conflict(local: EntryView, remote: EntryView, now: i64)
    requires
        local.current != remote.current,
        local.timestamp == remote.timestamp,
    ensures
        ({
            let d = decide(Some(local), Ok(remote), local.current, now);
            &&& d.outcome == Outcome::Conflict
            &&& d.store_write is None
            &&& d.overlay_write is None
        }),
{
}

/// A conflict is reported for whatever is on disk, as long as it is not what
/// the overlay's record names; it never writes.
pub proof fn lemma_conflict_never_writes(
    local: EntryView,
    remote: EntryView,
    disk: Seq<char>,
    now: i64,
)
    requires
        disk != remote.current,
        local.timestamp == remote.timestamp,
    ensures
        ({
            let d = decide(Some(local), Ok(remote), disk, now);
            &&& d.outcome == Outcome::Conflict
            &&& d.store_write is None
            &&& d.overlay_write is None
            &&& d.request_file == (disk == no_file())
        }),
{
}

/// The local store is written only with a record of what is on disk or with
/// the overlay's own record, and the overlay only with a record of what is
/// on disk.
pub proof fn lemma_writes_follow_disk(
    local: Option<EntryView>,
    remote: Result<EntryView, LookupError>,
    disk: Seq<char>,
    now: i64,
)
    ensures
        ({
            let d = decide(local, remote, disk, now);
            &&& d.overlay_write matches Some(w) ==> w.current == disk
            &&& d.store_write matches Some(w) ==> w.current == disk
        }),
{
}

/// Times never go back: a record that is written carries a time that is no
/// earlier than that of the local record it replaces, as long as the clock
/// has not fallen behind that record.
pub proof fn lemma_written_time_monotone(
    local: EntryView,
    remote: Result<EntryView, LookupError>,
    disk: Seq<char>,
    now: i64,
)
    requires
        now >= local.timestamp,
    ensures
        ({
            let d = decide(Some(local), remote, disk, now);
            &&& d.store_write matches Some(w) ==> w.timestamp >= local.timestamp
            &&& d.overlay_write matches Some(w) ==> w.timestamp >= local.timestamp
        }),
{
}

/// The record of the local store once the writes of a decision are done.
pub open spec fn store_after(local: Option<EntryView>, d: ResolutionView) -> Option<EntryView> {
    match d.store_write {
        Some(w) => Some(w),
        None => local,
    }
}

/// The answer of the overlay once the writes of a decision are done.
pub open spec fn overlay_after(
    remote: Result<EntryView, LookupError>,
    d: ResolutionView,
) -> Result<EntryView, LookupError> {
    match d.overlay_write {
        Some(w) => Ok(w),
        None => remote,
    }
}

/// No oscillation. Once the writes of a decision that bootstraps, adopts,
/// refreshes or merges are done, the next evaluation, at whatever time,
/// finds disk, local store and overlay in step and does nothing.
pub proof fn lemma_writes_settle(
    local: Option<EntryView>,
    remote: Result<EntryView, LookupError>,
    disk: Seq<char>,
    now: i64,
    next: i64,
)
    requires
        ({
            let o = decide(local, remote, disk, now).outcome;
            o == Outcome::Bootstrapped || o == Outcome::AdoptedRemote || o == Outcome::Refreshed
                || o == Outcome::Merged || o == Outcome::InSync
        }),
    ensures
        ({
            let d = decide(local, remote, disk, now);
            decide(store_after(local, d), overlay_after(remote, d), disk, next) == idle(
                Outcome::InSync,
            )
        }),
{
}

/// Once the local state has been put to the overlay because the local
/// record was the newer one, the next evaluation either finds everything in
/// step or refreshes a local record that names another hash than the disk;
/// it never requests, and never reports a conflict.
pub proof fn lemma_local_win_settles(
    local: EntryView,
    remote: EntryView,
    disk: Seq<char>,
    now: i64,
    next: i64,
)
    requires
        decide(Some(local), Ok(remote), disk, now).outcome == Outcome::LocalWins,
    ensures
        ({
            let d = decide(Some(local), Ok(remote), disk, now);
            let e = decide(Some(local), overlay_after(Ok(remote), d), disk, next);
            &&& e.outcome == Outcome::InSync || e.outcome == Outcome::Refreshed
            &&& !e.request_file
        }),
{
}

/// The decision depends on nothing but its four arguments: the same answers
/// at the same time give the same decision, whatever happened before.
pub proof fn lemma_replay_gives_same_decision(
    local1: Option<EntryView>,
    remote1: Result<EntryView, LookupError>,
    disk1: Seq<char>,
    now1: i64,
    local2: Option<EntryView>,
    remote2: Result<EntryView, LookupError>,
    disk2: Seq<char>,
    now2: i64,
)
    requires
        local1 == local2,
        remote1 == remote2,
        disk1 == disk2,
        now1 == now2,
    ensures
        decide(local1, remote1, disk1, now1) == decide(local2, remote2, disk2, now2),
{
}

} // verus!
