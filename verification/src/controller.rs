//! The reconcile loop's decisions: what a tick does, pass by pass.
use vstd::prelude::*;
use vstd::string::*;

use crate::clock::{Timestamp, MAX_SECS};
use crate::crd::ScheduleWindowSpec;
#[allow(unused_imports)]
use crate::crd::window_views;
#[allow(unused_imports)]
use crate::domain::schedule_view;
use crate::domain::ScalingSchedule;
use crate::field_map::{contains_text, FieldMap};
#[allow(unused_imports)]
use crate::leader::{acquirable, holder, interval_lease, Lease, ACQUIRE_SKEW_SECONDS};
#[allow(unused_imports)]
use crate::status::Recommendation;
#[allow(unused_imports)]
use crate::text::views;

pub mod analysis;
pub mod apply;
pub mod history;
pub mod schedule;
pub mod verify;

verus! {

/// The longest budget, in seconds, that a time span can hold.
pub const MAX_BUDGET_SECONDS: u64 = 9_223_372_036_854_775;

/// The key of a workload's state: `namespace/name`.
pub open spec fn key_text(namespace: Seq<char>, name: Seq<char>) -> Seq<char> {
    namespace + "/"@ + name
}

/// The key of a workload's state.
pub fn workload_key(namespace: &str, name: &str) -> (key: String)
    ensures
        key@ == key_text(namespace@, name@),
{
    let mut key = namespace.to_owned();
    key.append("/");
    key.append(name);
    key
}

/// Whether the operator acts in a namespace: any, where none is listed; else the listed ones.
pub open spec fn watched(list: Seq<Seq<char>>, namespace: Seq<char>) -> bool {
    list.len() == 0 || list.contains(namespace)
}

/// Whether the operator acts in a namespace.
pub fn is_watched(list: &Vec<String>, namespace: &str) -> (b: bool)
    ensures
        b == watched(views(list@), namespace@),
{
    list.len() == 0 || contains_text(list, namespace)
}

/// The seconds that a budget is worth: five minutes where it is longer than a time span can hold.
pub open spec fn budget_seconds(budget_s: u64) -> int {
    if budget_s > MAX_BUDGET_SECONDS {
        300
    } else {
        budget_s as int
    }
}

/// The instant a mutating pass must stop starting new work, so a single pass over thousands of
/// workloads can't overrun the lease. The budget is one reconcile interval (half the lease); the
/// per-pass timeout is the backstop for a single mutation that hangs past it.
pub fn mutation_deadline(started: Timestamp, budget_s: u64) -> (t: Timestamp)
    requires
        started.valid(),
        started.secs + budget_seconds(budget_s) <= MAX_SECS,
    ensures
        t == started.later_by(budget_seconds(budget_s)),
        t.valid(),
{
    if budget_s > MAX_BUDGET_SECONDS {
        started.plus_seconds(300)
    } else {
        started.plus_seconds(budget_s as i64)
    }
}

/// The reconcile sleep, in milliseconds, with a small deterministic jitter (0..10% of the
/// interval) added, so multiple replicas don't reconcile and renew their leases in lockstep and
/// stampede the API server. The jitter is derived from the wall clock, so it needs no source of
/// randomness.
pub fn jittered_sleep(base_ms: u64, now: Timestamp) -> (ms: u64)
    requires
        base_ms + base_ms / 10 <= u64::MAX,
    ensures
        ms == base_ms + if base_ms / 10 == 0 {
            0
        } else {
            now.nanos as int % (base_ms / 10 + 1)
        },
        base_ms <= ms <= base_ms + base_ms / 10,
{
    let span: u64 = base_ms / 10;
    if span == 0 {
        return base_ms;
    }
    base_ms + now.nanos as u64 % (span + 1)
}

/// Drop map entries whose key was not observed this tick, so per-workload state can't grow
/// unbounded as workloads/recommendations are deleted.
pub fn evict_absent<V>(map: &mut FieldMap<V>, present: &Vec<String>)
    ensures
        final(map)@ == old(map)@.restrict(
            Set::new(|k: Seq<char>| views(present@).contains(k)),
        ),
{
    map.keep_only(present);
}

pub fn into_schedule_specs(windows: ScalingSchedule) -> (specs: Vec<ScheduleWindowSpec>)
    ensures
        window_views(specs@) == schedule_view(windows@),
{
    let mut specs: Vec<ScheduleWindowSpec> = Vec::new();
    let mut i: usize = 0;
    while i < windows.len()
        invariant
            i <= windows@.len(),
            window_views(specs@) == schedule_view(windows@).take(i as int),
        decreases windows@.len() - i,
    {
        let ghost before = specs@;
        specs.push(
            ScheduleWindowSpec {
                start_cron: windows[i].start_cron.clone(),
                duration_minutes: windows[i].duration_minutes,
                min_replicas: windows[i].min_replicas,
            },
        );
        assert(window_views(specs@) =~= window_views(before).push(windows@[i as int]@));
        i += 1;
    }
    specs
}

// ---------------------------------------------------------------------------------------------
// A tick

/// How an election went: there is none, it failed, or it was decided.
#[derive(Debug, Clone, Copy, PartialEq, Eq, Structural)]
pub enum Election {
    Disabled,
    Failed,
    Decided(bool),
}

/// Whether this replica acts as leader. Without an election it always does; where the election
/// failed it does not.
pub fn is_leader(election: Election) -> (b: bool)
    ensures
        b == (election == Election::Disabled || election == Election::Decided(true)),
{
    match election {
        Election::Disabled => true,
        Election::Failed => false,
        Election::Decided(held) => held,
    }
}

/// What a tick does next. Mutating passes (apply/verify/schedule) run only on the leader.
#[derive(Debug, Clone, Copy, PartialEq, Eq, Structural)]
pub enum Stage {
    Analysis,
    Apply,
    Verify,
    Schedule,
    Sleep,
}

/// How a mutating pass ended: it was skipped because leadership was lost, ran to its end, failed,
/// or was aborted because it exceeded its time budget.
#[derive(Debug, Clone, Copy, PartialEq, Eq, Structural)]
pub enum PassEnd {
    NotLeader,
    Completed,
    Failed,
    TimedOut,
}

/// Whether the remaining passes of the tick may run. A pass that fails does not stop them; losing
/// leadership or blowing the budget does, so an expired or overrunning leader cannot keep patching
/// while a peer takes over.
pub open spec fn may_proceed(end: PassEnd) -> bool {
    end == PassEnd::Completed || end == PassEnd::Failed
}

/// The stage after the analysis pass, by whether this replica led when the tick began.
pub fn after_analysis(leader: bool) -> (next: Stage)
    ensures
        next == if leader {
            Stage::Apply
        } else {
            Stage::Sleep
        },
{
    if leader {
        Stage::Apply
    } else {
        Stage::Sleep
    }
}

/// The outcome of a guarded pass that has not run: skipped, because leadership was lost.
pub fn guarded_mutate(leader: bool) -> (skipped: Option<PassEnd>)
    ensures
        skipped == if leader {
            None
        } else {
            Some(PassEnd::NotLeader)
        },
{
    if leader {
        None
    } else {
        Some(PassEnd::NotLeader)
    }
}

/// The stage that follows a mutating one.
pub open spec fn following(stage: Stage, end: PassEnd) -> Stage {
    if !may_proceed(end) {
        Stage::Sleep
    } else {
        match stage {
            Stage::Apply => Stage::Verify,
            Stage::Verify => Stage::Schedule,
            _ => Stage::Sleep,
        }
    }
}

/// The stage that follows a mutating one.
pub fn next_stage(stage: Stage, end: PassEnd) -> (next: Stage)
    ensures
        next == following(stage, end),
{
    match end {
        PassEnd::NotLeader => Stage::Sleep,
        PassEnd::TimedOut => Stage::Sleep,
        _ => match stage {
            Stage::Apply => Stage::Verify,
            Stage::Verify => Stage::Schedule,
            _ => Stage::Sleep,
        },
    }
}

/// Once a pass is skipped or aborted, no further mutating pass of the tick runs.
pub proof fn law_lost_leadership_stops_the_tick(stage: Stage, end: PassEnd)
    requires
        end == PassEnd::NotLeader || end == PassEnd::TimedOut,
    ensures
        following(stage, end) == Stage::Sleep,
{
}

/// Nothing outside the listed namespaces is touched: there no change is applied, no schedule is
/// driven, and no applied change is judged (and so none is reverted).
pub proof fn law_unlisted_namespaces_are_left_alone(
    rec: Recommendation,
    now: Timestamp,
    list: Seq<Seq<char>>,
)
    requires
        list.len() > 0,
        rec.namespace is Some ==> !list.contains(rec.namespace->0@),
    ensures
        !apply::apply_due(rec, list),
        !schedule::driven(rec, list),
        !verify::judgement_due(rec, now, list),
{
}

/// The budget of a pass is shorter than the lease: where a pass begins within one interval of the
/// leader's renewal, no peer may take the lease at any instant up to the pass's deadline, and no
/// work is begun past it.
pub proof fn law_pass_ends_before_a_takeover(
    lease: Lease,
    peer: Seq<char>,
    renewed: Timestamp,
    started: Timestamp,
    interval_s: u64,
    clock: Timestamp,
)
    requires
        holder(lease) is Some && holder(lease) != Some(peer),
        lease.spec->0.renew_time == Some(renewed),
        started.instant() - renewed.instant() <= interval_s * 1_000_000_000,
        started.valid(),
        started.secs + budget_seconds(interval_s) <= MAX_SECS,
        clock.instant() <= started.later_by(budget_seconds(interval_s)).instant(),
    ensures
        !acquirable(
            lease,
            peer,
            clock,
            interval_lease(interval_s),
            ACQUIRE_SKEW_SECONDS as int,
        ),
{
}

/// A failing pass does not keep the later ones from running.
pub proof fn law_failed_pass_does_not_stop_the_tick(stage: Stage)
    ensures
        following(stage, PassEnd::Failed) == following(stage, PassEnd::Completed),
{
}

/// The mutating passes of a tick run in the order apply, verify, schedule.
pub proof fn law_passes_run_in_order()
    ensures
        following(Stage::Apply, PassEnd::Completed) == Stage::Verify,
        following(Stage::Verify, PassEnd::Completed) == Stage::Schedule,
        following(Stage::Schedule, PassEnd::Completed) == Stage::Sleep,
        following(Stage::Apply, PassEnd::Failed) == Stage::Verify,
        following(Stage::Verify, PassEnd::Failed) == Stage::Schedule,
{
}

/// Where no namespace is listed the operator acts everywhere; a listed one is always acted in.
pub proof fn law_listed_namespaces_are_watched(list: Seq<Seq<char>>, i: int, namespace: Seq<char>)
    ensures
        list.len() == 0 ==> watched(list, namespace),
        0 <= i < list.len() ==> watched(list, list[i]),
        list.len() > 0 && (forall|j: int| 0 <= j < list.len() ==> #[trigger] list[j] != namespace)
            ==> !watched(list, namespace),
{
}

/// A workload's key tells it from every other, as a namespace holds no slash.
pub proof fn law_keys_are_distinct(
    namespace: Seq<char>,
    name: Seq<char>,
    other_namespace: Seq<char>,
    other_name: Seq<char>,
)
    requires
        !namespace.contains('/'),
        !other_namespace.contains('/'),
        key_text(namespace, name) == key_text(other_namespace, other_name),
    ensures
        namespace == other_namespace,
        name == other_name,
{
    reveal_strlit("/");
    let (a, b) = (key_text(namespace, name), key_text(other_namespace, other_name));
    let (m, n) = (namespace.len() as int, other_namespace.len() as int);
    assert(a[m] == '/' && b[n] == '/');
    if m < n {
        assert(other_namespace[m] == b[m]);
    }
    if n < m {
        assert(namespace[n] == a[n]);
    }
    assert(a.len() == m + 1 + name.len() && b.len() == n + 1 + other_name.len());
    assert forall|i: int| 0 <= i < m implies namespace[i] == other_namespace[i] by {
        assert(a[i] == namespace[i]);
        assert(b[i] == other_namespace[i]);
    }
    assert(namespace =~= other_namespace);
    assert forall|i: int| 0 <= i < name.len() implies name[i] == other_name[i] by {
        assert(a[m + 1 + i] == name[i]);
        assert(b[m + 1 + i] == other_name[i]);
    }
    assert(name =~= other_name);
}

/// A budget is worth its seconds, but for one that no time span holds, which is worth five minutes.
pub proof fn law_budget_is_worth_its_seconds(budget_s: u64)
    ensures
        budget_s <= 9_223_372_036_854_775 ==> budget_seconds(budget_s) == budget_s,
        budget_s > 9_223_372_036_854_775 ==> budget_seconds(budget_s) == 5 * 60,
{
}

} // verus!
