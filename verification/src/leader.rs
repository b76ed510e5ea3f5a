//! Single-leader election over a Lease.
use vstd::prelude::*;

use crate::clock::Timestamp;
use crate::text::text_eq;

verus! {

/// Clock-skew / API-latency margin added on top of the lease duration before a peer takes over.
pub const ACQUIRE_SKEW_SECONDS: i64 = 5;

/// What is read of a lease's `spec`.
#[derive(Debug)]
pub struct LeaseSpec {
    pub holder_identity: Option<String>,
    pub renew_time: Option<Timestamp>,
}

/// What is read of a `coordination.k8s.io/v1` Lease.
#[derive(Debug)]
pub struct Lease {
    pub resource_version: Option<String>,
    pub spec: Option<LeaseSpec>,
}

/// A lease to be written.
#[derive(Debug)]
pub struct NextLease {
    pub name: String,
    pub resource_version: Option<String>,
    pub holder_identity: String,
    pub lease_duration_seconds: i32,
    pub renew_time: Timestamp,
    pub acquire_time: Option<Timestamp>,
}

/// What to do about the lease: write a new one, replace the observed one (guarded by its resource
/// version, so when two replicas race for the same stale lease exactly one wins), or leave it to
/// its holder.
#[derive(Debug)]
pub enum LeaseAction {
    Create(NextLease),
    Replace(NextLease),
    Follow,
}

/// Single-leader election over a `coordination.k8s.io/v1` Lease so `replicas: 2+` can run safely -
/// only the holder performs mutating passes. Renewed once per reconcile tick; a stale `renewTime`
/// (older than the lease duration) lets another replica take over.
#[derive(Debug)]
pub struct LeaderElector {
    pub name: String,
    pub identity: String,
    pub lease_duration_s: i64,
    /// Extra time a peer must observe the lease expired before taking over, to absorb clock skew
    /// between pods and Lease GET/PUT latency (`renewTime` is wall-clock from the holder, compared
    /// on the peer's clock).
    pub acquire_skew_s: i64,
}

/// Whether a lease that is held by another may be taken: its holder never renewed, or renewed
/// longer ago than the lease lasts with the skew added.
pub open spec fn stale(renew: Option<Timestamp>, now: Timestamp, duration_s: int, skew_s: int) -> bool {
    match renew {
        Some(at) => now.instant() - at.instant() > (duration_s + skew_s) * 1_000_000_000,
        None => true,
    }
}

/// The identity that a lease names as its holder.
pub open spec fn holder(lease: Lease) -> Option<Seq<char>> {
    match lease.spec {
        Some(spec) => match spec.holder_identity {
            Some(id) => Some(id@),
            None => None,
        },
        None => None,
    }
}

/// Whether `me` may take the lease: nobody holds it, `me` does, or its holder's renewal is stale.
pub open spec fn acquirable(
    lease: Lease,
    me: Seq<char>,
    now: Timestamp,
    duration_s: int,
    skew_s: int,
) -> bool {
    match holder(lease) {
        Some(id) => id == me || stale(lease.spec->0.renew_time, now, duration_s, skew_s),
        None => true,
    }
}

/// Pure leadership decision: the lease is free to take if it has no holder, we already hold it, or
/// the current holder's `renewTime` is stale by more than the lease duration and the skew (or
/// absent). The skew term keeps a peer from grabbing a lease that is only marginally past expiry
/// on a skewed clock.
pub fn lease_is_acquirable(
    lease: &Lease,
    me: &str,
    now: Timestamp,
    lease_duration_s: i64,
    skew_s: i64,
) -> (b: bool)
    ensures
        b == acquirable(*lease, me@, now, lease_duration_s as int, skew_s as int),
{
    let spec = match &lease.spec {
        Some(spec) => spec,
        None => return true,
    };
    let id = match &spec.holder_identity {
        Some(id) => id,
        None => return true,
    };
    if text_eq(id.as_str(), me) {
        return true;
    }
    match spec.renew_time {
        Some(at) => {
            let elapsed: i128 = (now.secs as i128 - at.secs as i128) * 1_000_000_000
                + now.nanos as i128 - at.nanos as i128;
            elapsed > (lease_duration_s as i128 + skew_s as i128) * 1_000_000_000
        },
        None => true,
    }
}

/// Lease duration, in seconds, for a given reconcile interval. The leader renews once per tick, so
/// the lease spans two ticks (tolerating one missed renewal); the clock-skew/latency margin is
/// applied separately at takeover rather than by inflating the lease, which would only slow
/// failover. Never drops below one minute so a tiny interval can't make failover hair-trigger.
pub fn lease_duration_for_interval(interval_seconds: u64) -> (s: i64)
    requires
        interval_seconds * 2 <= i64::MAX / 1000,
    ensures
        s == interval_lease(interval_seconds),
{
    let two: u64 = interval_seconds * 2;
    if two < 60 {
        60
    } else {
        two as i64
    }
}

/// Two intervals, at least a minute.
pub open spec fn interval_lease(interval_seconds: u64) -> int {
    if interval_seconds * 2 < 60 {
        60
    } else {
        interval_seconds * 2
    }
}

/// Whether a written lease is the elector's own as of `now`.
pub open spec fn written_by(
    next: NextLease,
    elector: LeaderElector,
    now: Timestamp,
    acquiring: bool,
    resource_version: Option<Seq<char>>,
) -> bool {
    &&& next.name@ == elector.name@
    &&& next.resource_version is Some == resource_version is Some
    &&& next.resource_version is Some ==> next.resource_version->0@ == resource_version->0
    &&& next.holder_identity@ == elector.identity@
    &&& next.lease_duration_seconds == elector.lease_duration_s as i32
    &&& next.renew_time == now
    &&& next.acquire_time == if acquiring {
        Some(now)
    } else {
        None
    }
}

impl LeaderElector {
    pub fn new(name: String, identity: String, lease_duration_s: i64) -> (e: Self)
        ensures
            e == (LeaderElector {
                name,
                identity,
                lease_duration_s,
                acquire_skew_s: ACQUIRE_SKEW_SECONDS,
            }),
    {
        LeaderElector { name, identity, lease_duration_s, acquire_skew_s: ACQUIRE_SKEW_SECONDS }
    }

    fn lease(&self, now: Timestamp, acquiring: bool, resource_version: Option<String>) -> (n:
        NextLease)
        ensures
            written_by(
                n,
                *self,
                now,
                acquiring,
                match resource_version {
                    Some(v) => Some(v@),
                    None => None,
                },
            ),
    {
        NextLease {
            name: self.name.clone(),
            resource_version,
            holder_identity: self.identity.clone(),
            lease_duration_seconds: self.lease_duration_s as i32,
            renew_time: now,
            acquire_time: if acquiring {
                Some(now)
            } else {
                None
            },
        }
    }

    /// What to do about the observed lease (`None` where there is none yet). This replica holds
    /// the lease once a `Create` or `Replace` has gone through, and not otherwise.
    pub fn try_acquire(&self, observed: &Option<Lease>, now: Timestamp) -> (a: LeaseAction)
        ensures
            match *observed {
                None => a matches LeaseAction::Create(next) && written_by(
                    next,
                    *self,
                    now,
                    true,
                    None,
                ),
                Some(lease) => if acquirable(
                    lease,
                    self.identity@,
                    now,
                    self.lease_duration_s as int,
                    self.acquire_skew_s as int,
                ) {
                    a matches LeaseAction::Replace(next) && written_by(
                        next,
                        *self,
                        now,
                        holder(lease) != Some(self.identity@),
                        match lease.resource_version {
                            Some(v) => Some(v@),
                            None => None,
                        },
                    )
                } else {
                    a is Follow
                },
            },
    {
        match observed {
            None => LeaseAction::Create(self.lease(now, true, None)),
            Some(lease) => {
                if !lease_is_acquirable(
                    lease,
                    self.identity.as_str(),
                    now,
                    self.lease_duration_s,
                    self.acquire_skew_s,
                ) {
                    return LeaseAction::Follow;
                }
                let held_by_me: bool = match &lease.spec {
                    Some(spec) => match &spec.holder_identity {
                        Some(id) => text_eq(id.as_str(), self.identity.as_str()),
                        None => false,
                    },
                    None => false,
                };
                let version: Option<String> = match &lease.resource_version {
                    Some(v) => Some(v.clone()),
                    None => None,
                };
                LeaseAction::Replace(self.lease(now, !held_by_me, version))
            },
        }
    }
}

// ---------------------------------------------------------------------------------------------
// Laws

/// The lease as it is observed once it has been written.
pub open spec fn as_observed(next: NextLease, version: Option<String>) -> Lease {
    Lease {
        resource_version: version,
        spec: Some(
            LeaseSpec {
                holder_identity: Some(next.holder_identity),
                renew_time: Some(next.renew_time),
            },
        ),
    }
}

/// A replica that has written the lease keeps it: no other replica may take it until the lease
/// duration and the skew have passed.
pub proof fn law_holder_keeps_the_lease(
    next: NextLease,
    elector: LeaderElector,
    peer: LeaderElector,
    written: Timestamp,
    now: Timestamp,
    acquiring: bool,
    version: Option<Seq<char>>,
    seen: Option<String>,
)
    requires
        written_by(next, elector, written, acquiring, version),
        peer.identity@ != elector.identity@,
        now.instant() - written.instant() <= (peer.lease_duration_s + peer.acquire_skew_s)
            * 1_000_000_000,
    ensures
        !acquirable(
            as_observed(next, seen),
            peer.identity@,
            now,
            peer.lease_duration_s as int,
            peer.acquire_skew_s as int,
        ),
{
}

/// The holder may always renew its own lease.
pub proof fn law_holder_may_renew(
    next: NextLease,
    elector: LeaderElector,
    written: Timestamp,
    now: Timestamp,
    acquiring: bool,
    version: Option<Seq<char>>,
    seen: Option<String>,
)
    requires
        written_by(next, elector, written, acquiring, version),
    ensures
        acquirable(
            as_observed(next, seen),
            elector.identity@,
            now,
            elector.lease_duration_s as int,
            elector.acquire_skew_s as int,
        ),
{
}

/// A leader that renews every `interval_seconds` and misses one renewal is not displaced: two
/// intervals after its last renewal no peer may take the lease yet.
pub proof fn law_one_missed_renewal_is_tolerated(
    lease: Lease,
    me: Seq<char>,
    interval_seconds: u64,
    renewed: Timestamp,
    now: Timestamp,
)
    requires
        holder(lease) is Some,
        holder(lease) != Some(me),
        lease.spec->0.renew_time == Some(renewed),
        now.instant() - renewed.instant() <= interval_seconds * 2 * 1_000_000_000,
    ensures
        !acquirable(
            lease,
            me,
            now,
            interval_lease(interval_seconds),
            ACQUIRE_SKEW_SECONDS as int,
        ),
{
}

/// A leader that is gone is replaced: once the lease duration and the skew have passed since its
/// last renewal, any peer may take the lease.
pub proof fn law_dead_leader_is_replaced(
    lease: Lease,
    me: Seq<char>,
    renewed: Timestamp,
    now: Timestamp,
    duration_s: int,
    skew_s: int,
)
    requires
        lease.spec is Some,
        lease.spec->0.renew_time == Some(renewed),
        now.instant() - renewed.instant() > (duration_s + skew_s) * 1_000_000_000,
    ensures
        acquirable(lease, me, now, duration_s, skew_s),
{
}

/// A lease may be taken exactly where nobody holds it, the asking replica itself does, or its
/// holder has not renewed it for longer than the lease and the skew last together.
pub proof fn law_who_may_take_a_lease(
    lease: Lease,
    me: Seq<char>,
    now: Timestamp,
    duration_s: int,
    skew_s: int,
)
    ensures
        acquirable(lease, me, now, duration_s, skew_s) <==> {
            ||| lease.spec is None
            ||| lease.spec->0.holder_identity is None
            ||| lease.spec->0.holder_identity->0@ == me
            ||| lease.spec->0.renew_time is None
            ||| now.instant() > lease.spec->0.renew_time->0.instant() + duration_s * 1_000_000_000
                + skew_s * 1_000_000_000
        },
{
}

/// A written lease names its writer, was renewed when it was written, and replaces no other version
/// than the one that was observed; the instant of acquiring is set only where the holder changes.
pub proof fn law_written_lease_names_its_writer(
    next: NextLease,
    elector: LeaderElector,
    now: Timestamp,
    acquiring: bool,
    version: Option<Seq<char>>,
)
    requires
        written_by(next, elector, now, acquiring, version),
    ensures
        next.name@ == elector.name@,
        next.holder_identity@ == elector.identity@,
        next.renew_time == now,
        next.acquire_time is Some <==> acquiring,
        next.acquire_time is Some ==> next.acquire_time->0 == now,
        version is Some ==> next.resource_version is Some && next.resource_version->0@ == version->0,
        version is None ==> next.resource_version is None,
        0 <= elector.lease_duration_s <= i32::MAX ==> next.lease_duration_seconds
            == elector.lease_duration_s,
{
}

/// The lease spans two intervals, and a minute at least; a takeover waits five seconds more.
pub proof fn law_lease_spans_two_intervals(interval_seconds: u64)
    ensures
        interval_lease(interval_seconds) >= 2 * interval_seconds,
        interval_lease(interval_seconds) >= 60,
        interval_lease(interval_seconds) == 60 || interval_lease(interval_seconds) == 2
            * interval_seconds,
        ACQUIRE_SKEW_SECONDS == 5,
{
}

/// The holder is the identity that the lease names.
pub proof fn law_holder_is_the_named_one(lease: Lease)
    ensures
        lease.spec is None || lease.spec->0.holder_identity is None ==> holder(lease) is None,
        lease.spec is Some && lease.spec->0.holder_identity is Some ==> holder(lease) == Some(
            lease.spec->0.holder_identity->0@,
        ),
{
}

} // verus!
