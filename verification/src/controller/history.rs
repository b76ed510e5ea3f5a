//! The metric history that the operator keeps of each workload.
use vstd::prelude::*;

use crate::clock::{Timestamp, MIN_SECS};
use crate::domain::MetricPoint;
use crate::field_map::FieldMap;

verus! {

/// Points kept of a workload: about two weeks at five-minute resolution.
pub const HISTORY_CAP: usize = 4032;

/// The history of each workload, under its key.
pub type History = FieldMap<Vec<MetricPoint>>;

/// The points kept of a workload, none where it has not been seen.
pub open spec fn points_of(history: Map<Seq<char>, Vec<MetricPoint>>, key: Seq<char>) -> Seq<
    MetricPoint,
> {
    if history.dom().contains(key) {
        history[key]@
    } else {
        Seq::empty()
    }
}

/// The cache after fetched points come in: each is appended where it is later than the last.
pub open spec fn appended(cache: Seq<MetricPoint>, fetched: Seq<MetricPoint>) -> Seq<MetricPoint>
    decreases fetched.len(),
{
    if fetched.len() == 0 {
        cache
    } else {
        let before = appended(cache, fetched.drop_last());
        if before.len() == 0 || before.last().timestamp.precedes(fetched.last().timestamp) {
            before.push(fetched.last())
        } else {
            before
        }
    }
}

/// The latest points, as many as are kept.
pub open spec fn latest(points: Seq<MetricPoint>) -> Seq<MetricPoint> {
    if points.len() > HISTORY_CAP {
        points.skip(points.len() - HISTORY_CAP)
    } else {
        points
    }
}

/// A copy of the points kept of a workload.
pub fn cached_points(history: &History, key: &str) -> (points: Vec<MetricPoint>)
    ensures
        points@ == points_of(history@, key@),
{
    let mut points: Vec<MetricPoint> = Vec::new();
    if let Some(cache) = history.get(key) {
        let mut i: usize = 0;
        while i < cache.len()
            invariant
                i <= cache@.len(),
                points@ == cache@.take(i as int),
            decreases cache@.len() - i,
        {
            points.push(cache[i]);
            i += 1;
        }
        assert(cache@.take(cache@.len() as int) == cache@);
    }
    points
}

/// The instant from which a workload's history is fetched: its last point, or the whole window on
/// first sight, so a restart recovers history immediately.
pub fn fetch_since(history: &History, key: &str, now: Timestamp, window_s: i64) -> (t: Timestamp)
    requires
        MIN_SECS <= now.secs - window_s <= i64::MAX,
        window_s > i64::MIN,
    ensures
        t == if points_of(history@, key@).len() > 0 {
            points_of(history@, key@).last().timestamp
        } else {
            now.later_by(-window_s)
        },
{
    if let Some(cache) = history.get(key) {
        if cache.len() > 0 {
            return cache[cache.len() - 1].timestamp;
        }
    }
    now.plus_seconds(-window_s)
}

fn trim(points: Vec<MetricPoint>) -> (kept: Vec<MetricPoint>)
    ensures
        kept@ == latest(points@),
{
    if points.len() <= HISTORY_CAP {
        return points;
    }
    let mut kept: Vec<MetricPoint> = Vec::new();
    let from: usize = points.len() - HISTORY_CAP;
    let mut i: usize = from;
    while i < points.len()
        invariant
            from <= i <= points@.len(),
            kept@ == points@.subrange(from as int, i as int),
        decreases points@.len() - i,
    {
        kept.push(points[i]);
        i += 1;
    }
    assert(points@.subrange(from as int, points@.len() as int) == points@.skip(from as int));
    kept
}

fn take_cache(history: &mut History, key: &str) -> (cache: Vec<MetricPoint>)
    ensures
        cache@ == points_of(old(history)@, key@),
        final(history)@ == old(history)@.remove(key@),
{
    match history.take(key) {
        Some(cache) => cache,
        None => Vec::new(),
    }
}

/// Append the fetched points of a workload to its cache, and keep the latest.
pub fn record_fetched(history: &mut History, key: &str, fetched: &Vec<MetricPoint>)
    ensures
        final(history)@.dom().contains(key@),
        final(history)@ == old(history)@.insert(key@, final(history)@[key@]),
        points_of(final(history)@, key@) == latest(
            appended(points_of(old(history)@, key@), fetched@),
        ),
{
    let mut cache = take_cache(history, key);
    let ghost start = cache@;
    let mut i: usize = 0;
    assert(fetched@.take(0) == Seq::<MetricPoint>::empty());
    while i < fetched.len()
        invariant
            i <= fetched@.len(),
            cache@ == appended(start, fetched@.take(i as int)),
        decreases fetched@.len() - i,
    {
        assert(fetched@.take(i + 1).drop_last() == fetched@.take(i as int));
        if cache.len() == 0 || cache[cache.len() - 1].timestamp.earlier_than(
            fetched[i].timestamp,
        ) {
            cache.push(fetched[i]);
        }
        i += 1;
    }
    assert(fetched@.take(fetched@.len() as int) == fetched@);
    history.insert(key.to_owned(), trim(cache));
    assert(history@ =~= old(history)@.insert(key@, history@[key@]));
}

/// Accumulate the single status point of a tick, where there is one.
pub fn record_fallback(history: &mut History, key: &str, fallback: Option<MetricPoint>)
    ensures
        match fallback {
            Some(point) => {
                &&& final(history)@.dom().contains(key@)
                &&& final(history)@ == old(history)@.insert(key@, final(history)@[key@])
                &&& points_of(final(history)@, key@) == latest(
                    points_of(old(history)@, key@).push(point),
                )
            },
            None => final(history)@ == old(history)@,
        },
{
    if let Some(point) = fallback {
        let mut cache = take_cache(history, key);
        cache.push(point);
        history.insert(key.to_owned(), trim(cache));
        assert(history@ =~= old(history)@.insert(key@, history@[key@]));
    }
}

/// Whether each point is later than the one before.
pub open spec fn in_order(points: Seq<MetricPoint>) -> bool {
    forall|i: int, j: int|
        0 <= i < j < points.len() ==> points[i].timestamp.precedes(points[j].timestamp)
}

proof fn lemma_appended_in_order(cache: Seq<MetricPoint>, fetched: Seq<MetricPoint>)
    requires
        in_order(cache),
    ensures
        in_order(appended(cache, fetched)),
    decreases fetched.len(),
{
    if fetched.len() > 0 {
        lemma_appended_in_order(cache, fetched.drop_last());
        let before = appended(cache, fetched.drop_last());
        let after = appended(cache, fetched);
        assert forall|i: int, j: int| 0 <= i < j < after.len() implies after[i].timestamp.precedes(
            after[j].timestamp,
        ) by {
            if j == before.len() {
                assert(i == before.len() - 1 || before[i].timestamp.precedes(
                    before[before.len() - 1].timestamp,
                ));
            }
        }
    }
}

/// A history in order stays in order, whatever is fetched, and never grows past the cap.
pub proof fn law_history_stays_ordered_and_bounded(
    cache: Seq<MetricPoint>,
    fetched: Seq<MetricPoint>,
)
    requires
        in_order(cache),
    ensures
        in_order(latest(appended(cache, fetched))),
        latest(appended(cache, fetched)).len() <= 4032,
{
    lemma_appended_in_order(cache, fetched);
    let all = appended(cache, fetched);
    let kept = latest(all);
    assert forall|i: int, j: int| 0 <= i < j < kept.len() implies kept[i].timestamp.precedes(
        kept[j].timestamp,
    ) by {
        let skipped = all.len() - kept.len();
        assert(kept[i] == all[skipped + i]);
        assert(kept[j] == all[skipped + j]);
    }
}

/// Fetching again what is already known changes nothing.
pub proof fn law_known_points_are_not_repeated(
    cache: Seq<MetricPoint>,
    fetched: Seq<MetricPoint>,
)
    requires
        cache.len() > 0,
        forall|i: int|
            0 <= i < fetched.len() ==> !cache.last().timestamp.precedes(
                (#[trigger] fetched[i]).timestamp,
            ),
    ensures
        appended(cache, fetched) == cache,
    decreases fetched.len(),
{
    if fetched.len() > 0 {
        let rest = fetched.drop_last();
        assert forall|i: int| 0 <= i < rest.len() implies !cache.last().timestamp.precedes(
            (#[trigger] rest[i]).timestamp,
        ) by {
            assert(rest[i] == fetched[i]);
        }
        law_known_points_are_not_repeated(cache, rest);
        assert(!cache.last().timestamp.precedes(fetched[fetched.len() - 1].timestamp));
    }
}

/// What is kept stays at the front as it was, and all that follows it was fetched.
pub proof fn law_history_is_only_extended(
    cache: Seq<MetricPoint>,
    fetched: Seq<MetricPoint>,
    i: int,
)
    requires
        0 <= i < appended(cache, fetched).len(),
    ensures
        cache.len() <= appended(cache, fetched).len() <= cache.len() + fetched.len(),
        i < cache.len() ==> appended(cache, fetched)[i] == cache[i],
        i >= cache.len() ==> fetched.contains(appended(cache, fetched)[i]),
    decreases fetched.len(),
{
    lemma_appended_len(cache, fetched);
    if fetched.len() > 0 {
        let rest = fetched.drop_last();
        let before = appended(cache, rest);
        lemma_appended_len(cache, rest);
        if i < before.len() {
            law_history_is_only_extended(cache, rest, i);
            if i >= cache.len() {
                let k = choose|k: int| 0 <= k < rest.len() && rest[k] == before[i];
                assert(fetched[k] == before[i]);
            }
        } else {
            assert(fetched[fetched.len() - 1] == appended(cache, fetched)[i]);
        }
    }
}

proof fn lemma_appended_len(cache: Seq<MetricPoint>, fetched: Seq<MetricPoint>)
    ensures
        cache.len() <= appended(cache, fetched).len() <= cache.len() + fetched.len(),
    decreases fetched.len(),
{
    if fetched.len() > 0 {
        lemma_appended_len(cache, fetched.drop_last());
    }
}

/// Every fetched point that is later than all before it, kept and fetched, is kept.
pub proof fn law_new_points_are_kept(cache: Seq<MetricPoint>, fetched: Seq<MetricPoint>, k: int)
    requires
        0 <= k < fetched.len(),
        cache.len() > 0 ==> cache.last().timestamp.instant() < fetched[k].timestamp.instant(),
        forall|j: int|
            0 <= j < k ==> (#[trigger] fetched[j]).timestamp.instant()
                < fetched[k].timestamp.instant(),
        forall|j: int|
            0 <= j < fetched.len() ==> (#[trigger] fetched[j]).timestamp.nanos < 1_000_000_000,
        cache.len() > 0 ==> cache.last().timestamp.nanos < 1_000_000_000,
    ensures
        appended(cache, fetched).contains(fetched[k]),
    decreases fetched.len(),
{
    let rest = fetched.drop_last();
    let before = appended(cache, rest);
    let all = appended(cache, fetched);
    if k < rest.len() {
        law_new_points_are_kept(cache, rest, k);
        let i = choose|i: int| 0 <= i < before.len() && before[i] == fetched[k];
        assert(all[i] == fetched[k]);
    } else {
        if before.len() > 0 {
            law_history_is_only_extended(cache, rest, before.len() - 1);
            if before.len() > cache.len() {
                let j = choose|j: int| 0 <= j < rest.len() && rest[j] == before.last();
                assert(fetched[j] == before.last());
            } else {
                assert(before.last() == cache.last());
            }
        }
        assert(all.last() == fetched[k]);
        assert(all[all.len() - 1] == fetched[k]);
    }
}

/// Of a history only the latest 4032 points are kept, in order; a shorter one is kept whole.
pub proof fn law_latest_points_are_kept(points: Seq<MetricPoint>, i: int)
    requires
        0 <= i < latest(points).len(),
    ensures
        latest(points).len() == if points.len() < 4032 {
            points.len()
        } else {
            4032
        },
        latest(points)[i] == points[points.len() - latest(points).len() + i],
{
}

/// The points of a workload are those under its key, and none where it was never seen.
pub proof fn law_points_are_kept_by_key(history: Map<Seq<char>, Vec<MetricPoint>>, key: Seq<char>)
    ensures
        history.dom().contains(key) ==> points_of(history, key) == history[key]@,
        !history.dom().contains(key) ==> points_of(history, key).len() == 0,
{
}

} // verus!
