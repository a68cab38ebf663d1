use org_sync::dht::DhtEntry;
use org_sync::resolver::{resolve, LookupError, Outcome, Resolution};

fn entry(current: &str, previous: Option<&str>, timestamp: i64) -> DhtEntry {
    DhtEntry { current: current.to_string(), previous: previous.map(|p| p.to_string()), timestamp }
}

fn idle(outcome: Outcome) -> Resolution {
    Resolution { outcome, store_write: None, overlay_write: None, request_file: false }
}

fn both(outcome: Outcome, e: DhtEntry) -> Resolution {
    Resolution { outcome, store_write: Some(e.clone()), overlay_write: Some(e), request_file: false }
}

const NOW: i64 = 1_000;

#[test]
fn not_found_bootstrap_with_empty_store() {
    let d = resolve(&None, &Err(LookupError::NotFound), &"H".to_string(), NOW);
    assert_eq!(d, both(Outcome::Bootstrapped, entry("H", None, NOW)));
}

#[test]
fn not_found_with_local_record_keeps_its_previous_and_time() {
    let local = Some(entry("OLD", Some("OLDER"), 77));
    let d = resolve(&local, &Err(LookupError::NotFound), &"H".to_string(), NOW);
    assert_eq!(d, both(Outcome::Bootstrapped, entry("H", Some("OLDER"), 77)));
}

#[test]
fn not_found_without_file_does_nothing() {
    let d = resolve(&None, &Err(LookupError::NotFound), &"no_file".to_string(), NOW);
    assert_eq!(d, idle(Outcome::NothingKnown));
    let local = Some(entry("OLD", None, 77));
    let d = resolve(&local, &Err(LookupError::NotFound), &"no_file".to_string(), NOW);
    assert_eq!(d, idle(Outcome::NothingKnown));
}

#[test]
fn failed_lookups_are_terminal() {
    let local = Some(entry("H", None, 77));
    let d = resolve(&local, &Err(LookupError::QuorumFailed), &"H".to_string(), NOW);
    assert_eq!(d, idle(Outcome::LookupFailed(LookupError::QuorumFailed)));
    let d = resolve(&None, &Err(LookupError::Timeout), &"no_file".to_string(), NOW);
    assert_eq!(d, idle(Outcome::LookupFailed(LookupError::Timeout)));
}

#[test]
fn remote_found_without_local_record() {
    let remote = Ok(entry("R", Some("Q"), 500));
    let differs = resolve(&None, &remote, &"D".to_string(), NOW);
    assert_eq!(
        differs,
        Resolution { outcome: Outcome::RequestedRemote, store_write: None, overlay_write: None, request_file: true }
    );
    let missing = resolve(&None, &remote, &"no_file".to_string(), NOW);
    assert_eq!(missing.outcome, Outcome::RequestedRemote);
    assert!(missing.request_file);
    let agrees = resolve(&None, &remote, &"R".to_string(), NOW);
    assert_eq!(
        agrees,
        Resolution {
            outcome: Outcome::AdoptedRemote,
            store_write: Some(entry("R", Some("Q"), 500)),
            overlay_write: None,
            request_file: false
        }
    );
}

#[test]
fn stale_local_store_is_refreshed() {
    let local = Some(entry("L", None, 10));
    let remote = Ok(entry("D", Some("X"), 20));
    let d = resolve(&local, &remote, &"D".to_string(), NOW);
    assert_eq!(d, both(Outcome::Refreshed, entry("D", Some("L"), NOW)));
}

#[test]
fn equal_hashes_converge_on_the_later_time() {
    let a = entry("H", Some("PA"), 100);
    let b = entry("H", Some("PB"), 50);
    let one = resolve(&Some(a.clone()), &Ok(b.clone()), &"H".to_string(), NOW);
    let other = resolve(&Some(b), &Ok(a), &"H".to_string(), NOW);
    assert_eq!(one, both(Outcome::Merged, entry("H", Some("PB"), 100)));
    assert_eq!(other, both(Outcome::Merged, entry("H", Some("PA"), 100)));
    assert_eq!(one.store_write.as_ref().unwrap().current, other.store_write.as_ref().unwrap().current);
    assert_eq!(one.store_write.as_ref().unwrap().timestamp, other.store_write.as_ref().unwrap().timestamp);
}

#[test]
fn equal_hashes_and_times_are_in_sync() {
    let a = entry("H", None, 100);
    let b = entry("H", Some("P"), 100);
    assert_eq!(resolve(&Some(a.clone()), &Ok(b.clone()), &"H".to_string(), NOW), idle(Outcome::InSync));
    assert_eq!(resolve(&Some(b), &Ok(a), &"H".to_string(), NOW), idle(Outcome::InSync));
}

#[test]
fn newer_remote_is_requested() {
    let local = Some(entry("L", None, 50));
    let remote = Ok(entry("R", None, 100));
    let d = resolve(&local, &remote, &"L".to_string(), NOW);
    assert_eq!(
        d,
        Resolution { outcome: Outcome::RequestedRemote, store_write: None, overlay_write: None, request_file: true }
    );
}

#[test]
fn newer_local_wins() {
    let local = Some(entry("L", None, 100));
    let remote = Ok(entry("R", None, 50));
    let d = resolve(&local, &remote, &"D".to_string(), NOW);
    assert_eq!(
        d,
        Resolution {
            outcome: Outcome::LocalWins,
            store_write: None,
            overlay_write: Some(entry("D", Some("R"), 100)),
            request_file: false
        }
    );
}

#[test]
fn equal_times_with_different_hashes_is_a_conflict() {
    let local = Some(entry("H1", None, 100));
    let remote = Ok(entry("H2", None, 100));
    let d = resolve(&local, &remote, &"H1".to_string(), NOW);
    assert_eq!(d, idle(Outcome::Conflict));
}

#[test]
fn nothing_on_disk_is_requested_whatever_the_times() {
    let remote = Ok(entry("R", None, 100));
    let older = resolve(&Some(entry("L", None, 50)), &remote, &"no_file".to_string(), NOW);
    assert_eq!(older.outcome, Outcome::RequestedRemote);
    assert!(older.request_file);
    let newer = resolve(&Some(entry("L", None, 150)), &remote, &"no_file".to_string(), NOW);
    assert_eq!(newer.outcome, Outcome::LocalWins);
    assert!(newer.request_file);
    assert_eq!(newer.overlay_write, Some(entry("no_file", Some("R"), 150)));
    let same = resolve(&Some(entry("L", None, 100)), &remote, &"no_file".to_string(), NOW);
    assert_eq!(same.outcome, Outcome::Conflict);
    assert!(same.request_file);
    assert_eq!(same.store_write, None);
    assert_eq!(same.overlay_write, None);
}

#[test]
fn replaying_a_decision_gives_the_same_decision() {
    let local = Some(entry("L", None, 50));
    let remote = Ok(entry("R", None, 100));
    let first = resolve(&local, &remote, &"L".to_string(), NOW);
    let second = resolve(&local, &remote, &"L".to_string(), NOW);
    assert_eq!(first, second);
}

#[test]
fn writes_settle() {
    // After the writes of a merge both stores hold the merged record: the
    // next evaluation does nothing.
    let a = entry("H", Some("PA"), 100);
    let b = entry("H", Some("PB"), 50);
    let merged = resolve(&Some(a), &Ok(b), &"H".to_string(), NOW);
    let record = merged.store_write.unwrap();
    assert_eq!(Some(record.clone()), merged.overlay_write);
    let next = resolve(&Some(record.clone()), &Ok(record), &"H".to_string(), NOW + 1);
    assert_eq!(next, idle(Outcome::InSync));
}

#[test]
fn local_win_settles_in_two_steps() {
    let local = entry("L", None, 100);
    let remote = entry("R", None, 50);
    let first = resolve(&Some(local.clone()), &Ok(remote), &"D".to_string(), NOW);
    assert_eq!(first.outcome, Outcome::LocalWins);
    let announced = first.overlay_write.unwrap();
    let second = resolve(&Some(local), &Ok(announced), &"D".to_string(), NOW + 1);
    assert_eq!(second, both(Outcome::Refreshed, entry("D", Some("L"), NOW + 1)));
    let fresh = second.store_write.unwrap();
    let third = resolve(&Some(fresh.clone()), &Ok(fresh), &"D".to_string(), NOW + 2);
    assert_eq!(third, idle(Outcome::InSync));
}
