use chrono::{TimeZone, Utc};
use openhpa::clock::Timestamp;
use openhpa::leader::{
    lease_duration_for_interval, lease_is_acquirable, LeaderElector, Lease, LeaseAction,
    LeaseSpec, ACQUIRE_SKEW_SECONDS,
};

fn lease_held_by(holder: Option<&str>, renew: Option<Timestamp>) -> Lease {
    Lease {
        resource_version: None,
        spec: Some(LeaseSpec {
            holder_identity: holder.map(str::to_owned),
            renew_time: renew,
        }),
    }
}

fn now() -> Timestamp {
    let t = Utc.with_ymd_and_hms(2026, 1, 1, 12, 0, 0).unwrap();
    Timestamp { secs: t.timestamp(), nanos: 0 }
}

fn ago(seconds: i64) -> Timestamp {
    now().plus_seconds(-seconds)
}

fn skew() -> i64 {
    ACQUIRE_SKEW_SECONDS
}

#[test]
fn empty_lease_is_acquirable() {
    let lease = Lease { resource_version: None, spec: None };
    assert!(lease_is_acquirable(&lease, "me", now(), 30, skew()));
}

#[test]
fn unheld_lease_is_acquirable() {
    let lease = lease_held_by(None, None);
    assert!(lease_is_acquirable(&lease, "me", now(), 30, skew()));
}

#[test]
fn self_held_lease_is_acquirable() {
    let lease = lease_held_by(Some("me"), Some(now()));
    assert!(lease_is_acquirable(&lease, "me", now(), 30, skew()));
}

#[test]
fn fresh_lease_held_by_other_is_not_acquirable() {
    let lease = lease_held_by(Some("peer"), Some(ago(10)));
    assert!(!lease_is_acquirable(&lease, "me", now(), 30, skew()));
}

#[test]
fn stale_lease_held_by_other_is_acquirable() {
    let lease = lease_held_by(Some("peer"), Some(ago(120)));
    assert!(lease_is_acquirable(&lease, "me", now(), 30, skew()));
}

#[test]
fn lease_held_by_other_without_renew_time_is_acquirable() {
    let lease = lease_held_by(Some("peer"), None);
    assert!(lease_is_acquirable(&lease, "me", now(), 30, skew()));
}

#[test]
fn marginally_expired_lease_is_not_yet_acquirable() {
    // Expired by 32s with a 30s lease: within the 5s skew margin, so a peer must NOT take over
    // yet (a clock-skewed peer could otherwise steal a lease that is barely past expiry).
    let lease = lease_held_by(Some("peer"), Some(ago(32)));
    assert!(!lease_is_acquirable(&lease, "me", now(), 30, skew()));
    // Well past expiry (beyond lease + skew) -> acquirable.
    let stale = lease_held_by(Some("peer"), Some(ago(40)));
    assert!(lease_is_acquirable(&stale, "me", now(), 30, skew()));
    // To the nanosecond.
    let edge = lease_held_by(Some("peer"), Some(ago(35)));
    assert!(!lease_is_acquirable(&edge, "me", now(), 30, skew()));
    let later = Timestamp { nanos: 1, ..now() };
    assert!(lease_is_acquirable(&edge, "me", later, 30, skew()));
}

#[test]
fn lease_duration_spans_two_renew_intervals_not_more() {
    // Renew runs once per interval; the lease must tolerate one missed renewal (2x).
    assert_eq!(lease_duration_for_interval(300), 600);
    assert_eq!(lease_duration_for_interval(1), 60);
    assert_eq!(lease_duration_for_interval(30), 60);
    assert_eq!(lease_duration_for_interval(31), 62);
}

fn elector(identity: &str) -> LeaderElector {
    LeaderElector::new("openhpa-leader".to_owned(), identity.to_owned(), 600)
}

#[test]
fn a_missing_lease_is_created() {
    let LeaseAction::Create(next) = elector("me").try_acquire(&None, now()) else {
        panic!("expected a new lease");
    };
    assert_eq!(next.name, "openhpa-leader");
    assert_eq!(next.holder_identity, "me");
    assert_eq!(next.lease_duration_seconds, 600);
    assert_eq!((next.renew_time, next.acquire_time), (now(), Some(now())));
    assert_eq!(next.resource_version, None);
}

#[test]
fn the_holder_renews_and_a_peer_follows_until_it_is_stale() {
    let held = Some(Lease {
        resource_version: Some("41".to_owned()),
        ..lease_held_by(Some("me"), Some(ago(300)))
    });
    let LeaseAction::Replace(next) = elector("me").try_acquire(&held, now()) else {
        panic!("expected a renewal");
    };
    assert_eq!(next.acquire_time, None);
    assert_eq!(next.resource_version.as_deref(), Some("41"));
    assert!(matches!(elector("peer").try_acquire(&held, now()), LeaseAction::Follow));
    // One missed renewal is tolerated; after the lease and the skew the peer takes over.
    assert!(matches!(
        elector("peer").try_acquire(&held, ago(300).plus_seconds(605)),
        LeaseAction::Follow
    ));
    let LeaseAction::Replace(next) =
        elector("peer").try_acquire(&held, ago(300).plus_seconds(606))
    else {
        panic!("expected a takeover");
    };
    assert_eq!(next.acquire_time, Some(ago(300).plus_seconds(606)));
    assert_eq!(next.holder_identity, "peer");
}
