//! The cron shape of schedule windows: `MIN HOUR * * DOW`.
use vstd::prelude::*;
use vstd::string::*;

use crate::clock::{weekday, Timestamp};
#[allow(unused_imports)]
use crate::clock::weekday_of_day;
#[allow(unused_imports)]
use crate::text::{all_digits, before_char, decimal, joined, pieces_of, u32_of, views, words_of};
use crate::text::{parse_u32, push_decimal, split_on, split_once, text_eq, words};

verus! {

// ---------------------------------------------------------------------------------------------
// Reading

/// The days that one comma-separated part of the day field names: a day, or a `from-to` range.
/// Days count modulo seven, so both 0 and 7 are Sunday.
pub open spec fn part_days(part: Seq<char>) -> Option<Seq<u32>> {
    let head = before_char(part, '-');
    if head.len() < part.len() {
        match (u32_of(head), u32_of(part.skip(head.len() as int + 1))) {
            (Some(a), Some(b)) => Some(
                Seq::new(
                    if a <= b {
                        (b - a + 1) as nat
                    } else {
                        0
                    },
                    |i: int| ((a + i) % 7) as u32,
                ),
            ),
            _ => None,
        }
    } else {
        match u32_of(part) {
            Some(d) => Some(seq![(d % 7) as u32]),
            None => None,
        }
    }
}

/// The days that a list of parts names, in order; `None` when one of them is malformed.
pub open spec fn parts_days(parts: Seq<Seq<char>>) -> Option<Seq<u32>>
    decreases parts.len(),
{
    if parts.len() == 0 {
        Some(Seq::empty())
    } else {
        match (parts_days(parts.drop_last()), part_days(parts.last())) {
            (Some(before), Some(here)) => Some(before + here),
            _ => None,
        }
    }
}

/// All seven days, from Sunday.
pub open spec fn every_day() -> Seq<u32> {
    Seq::new(7, |i: int| i as u32)
}

/// The days of a day-of-week field.
pub open spec fn dow_days(field: Seq<char>) -> Option<Seq<u32>> {
    if field == "*"@ {
        Some(every_day())
    } else {
        parts_days(pieces_of(field, ','))
    }
}

/// The minute, the hour and the days of a `MIN HOUR * * DOW` cron; `None` when it has another
/// shape. The two middle fields are not looked at.
pub open spec fn cron_fields(cron: Seq<char>) -> Option<(u32, u32, Seq<u32>)> {
    let fields = words_of(cron);
    if fields.len() != 5 {
        None
    } else {
        match (u32_of(fields[0]), u32_of(fields[1]), dow_days(fields[4])) {
            (Some(minute), Some(hour), Some(days)) => if minute <= 59 && hour <= 23 {
                Some((minute, hour, days))
            } else {
                None
            },
            _ => None,
        }
    }
}

proof fn lemma_parts_prefix(parts: Seq<Seq<char>>, i: int)
    requires
        0 <= i <= parts.len(),
        parts_days(parts.take(i)) is None,
    ensures
        parts_days(parts) is None,
    decreases parts.len() - i,
{
    if i < parts.len() {
        assert(parts.take(i + 1).drop_last() == parts.take(i));
        lemma_parts_prefix(parts, i + 1);
    } else {
        assert(parts.take(i) == parts);
    }
}

/// The days of a day-of-week field.
pub fn parse_dow(field: &str) -> (r: Option<Vec<u32>>)
    ensures
        match r {
            Some(days) => dow_days(field@) == Some(days@),
            None => dow_days(field@) is None,
        },
{
    let mut days: Vec<u32> = Vec::new();
    if text_eq(field, "*") {
        let mut d: u32 = 0;
        while d < 7
            invariant
                d <= 7,
                days@ == every_day().take(d as int),
            decreases 7 - d,
        {
            days.push(d);
            d += 1;
        }
        assert(days@ == every_day());
        return Some(days);
    }
    let parts = split_on(field, ',');
    let ghost names = views(parts@);
    let mut i: usize = 0;
    assert(names.take(0) == Seq::<Seq<char>>::empty());
    while i < parts.len()
        invariant
            i <= parts@.len(),
            names == views(parts@),
            names == pieces_of(field@, ','),
            field@ != "*"@,
            parts_days(names.take(i as int)) == Some(days@),
        decreases parts@.len() - i,
    {
        let part = parts[i].as_str();
        let ghost before = days@;
        assert(names.take(i + 1).drop_last() == names.take(i as int));
        assert(names.take(i + 1).last() == part@);
        match split_once(part, '-') {
            Some((start, end)) => {
                let (a, b) = match (parse_u32(start.as_str()), parse_u32(end.as_str())) {
                    (Some(a), Some(b)) => (a, b),
                    _ => {
                        proof {
                            lemma_parts_prefix(names, i + 1);
                        }
                        return None;
                    },
                };
                let ghost whole = part_days(part@)->0;
                let mut day: u64 = a as u64;
                while day <= b as u64
                    invariant
                        a <= day,
                        a <= b ==> day <= b + 1,
                        a > b ==> day == a,
                        whole == Seq::new(
                            if a <= b {
                                (b - a + 1) as nat
                            } else {
                                0
                            },
                            |i: int| ((a + i) % 7) as u32,
                        ),
                        days@ == before + whole.take(day - a),
                    decreases b + 1 - day,
                {
                    days.push((day % 7) as u32);
                    assert(whole.take(day - a + 1) == whole.take(day - a).push(
                        (day % 7) as u32,
                    ));
                    day += 1;
                }
                assert(whole.take(whole.len() as int) == whole);
            },
            None => {
                match parse_u32(part) {
                    Some(d) => {
                        days.push(d % 7);
                        assert(days@ == before + seq![(d % 7) as u32]);
                    },
                    None => {
                        proof {
                            lemma_parts_prefix(names, i + 1);
                        }
                        return None;
                    },
                }
            },
        }
        i += 1;
    }
    assert(names.take(names.len() as int) == names);
    Some(days)
}

/// The minute, the hour and the days of a `MIN HOUR * * DOW` cron.
pub fn parse_simple_cron(cron: &str) -> (r: Option<(u32, u32, Vec<u32>)>)
    ensures
        match r {
            Some((minute, hour, days)) => cron_fields(cron@) == Some((minute, hour, days@)),
            None => cron_fields(cron@) is None,
        },
{
    let fields = words(cron);
    assert(views(fields@).len() == fields@.len());
    if fields.len() != 5 {
        return None;
    }
    assert(views(fields@)[0] == fields@[0]@);
    assert(views(fields@)[1] == fields@[1]@);
    assert(views(fields@)[4] == fields@[4]@);
    let minute: u32 = match parse_u32(fields[0].as_str()) {
        Some(v) => v,
        None => return None,
    };
    let hour: u32 = match parse_u32(fields[1].as_str()) {
        Some(v) => v,
        None => return None,
    };
    if minute > 59 || hour > 23 {
        return None;
    }
    match parse_dow(fields[4].as_str()) {
        Some(days) => Some((minute, hour, days)),
        None => None,
    }
}

// ---------------------------------------------------------------------------------------------
// Being inside a window

/// Seconds since 1970 at which a window that opens on `day` at `hour:minute` begins.
pub open spec fn window_start(day: int, minute: u32, hour: u32) -> int {
    day * 86_400 + hour * 3_600 + minute * 60
}

/// Whether `now` lies in the window that opens on `day`, and `day` is one of the window's days.
pub open spec fn covered_by_day(
    day: int,
    minute: u32,
    hour: u32,
    days: Seq<u32>,
    duration_minutes: i32,
    now: Timestamp,
) -> bool {
    &&& days.contains(weekday_of_day(day) as u32)
    &&& window_start(day, minute, hour) * 1_000_000_000 <= now.instant()
    &&& now.instant() < (window_start(day, minute, hour) + duration_minutes * 60) * 1_000_000_000
}

/// Whether `now` lies in an occurrence of the window, whichever day that opened on.
pub open spec fn window_active(
    minute: u32,
    hour: u32,
    days: Seq<u32>,
    duration_minutes: i32,
    now: Timestamp,
) -> bool {
    exists|day: int| #[trigger]
        covered_by_day(day, minute, hour, days, duration_minutes, now)
}

/// Whether `now` lies in a window given by its cron and its length.
pub open spec fn cron_active(cron: Seq<char>, duration_minutes: i32, now: Timestamp) -> bool {
    match cron_fields(cron) {
        Some((minute, hour, days)) => window_active(minute, hour, days, duration_minutes, now),
        None => false,
    }
}

fn contains_day(days: &Vec<u32>, day: u32) -> (b: bool)
    ensures
        b == days@.contains(day),
{
    let mut i: usize = 0;
    while i < days.len()
        invariant
            i <= days@.len(),
            forall|j: int| 0 <= j < i ==> days@[j] != day,
        decreases days@.len() - i,
    {
        if days[i] == day {
            return true;
        }
        i += 1;
    }
    false
}

/// Whether `now` falls inside a window that started at `start_cron` and lasts `duration_minutes`.
/// Handles only the `MIN HOUR * * DOW` shape (covers windows crossing midnight); any other cron,
/// and a window without length, is never active.
pub fn cron_window_active(start_cron: &str, duration_minutes: i32, now: Timestamp) -> (b: bool)
    requires
        now.valid(),
    ensures
        b == cron_active(start_cron@, duration_minutes, now),
{
    let (minute, hour, days) = match parse_simple_cron(start_cron) {
        Some(fields) => fields,
        None => return false,
    };
    if duration_minutes <= 0 {
        return false;
    }
    let today: i64 = now.day_number();
    let length: i64 = duration_minutes as i64 * 60;
    let last: i64 = (duration_minutes / 1440) as i64 + 1;
    let mut offset: i64 = 0;
    while offset <= last
        invariant
            0 <= offset <= last + 1,
            last == duration_minutes / 1440 + 1,
            length == duration_minutes * 60,
            0 < duration_minutes,
            today == now.day(),
            now.valid(),
            minute <= 59,
            hour <= 23,
            cron_fields(start_cron@) == Some((minute, hour, days@)),
            forall|day: int|
                today - offset < day ==> !#[trigger] covered_by_day(
                    day,
                    minute,
                    hour,
                    days@,
                    duration_minutes,
                    now,
                ),
        decreases last + 1 - offset,
    {
        let day: i64 = today - offset;
        let start: i64 = day * 86_400 + hour as i64 * 3_600 + minute as i64 * 60;
        if contains_day(&days, weekday(day)) && now.secs >= start && now.secs < start + length {
            assert(covered_by_day(day as int, minute, hour, days@, duration_minutes, now));
            return true;
        }
        assert(!covered_by_day(day as int, minute, hour, days@, duration_minutes, now));
        offset += 1;
    }
    assert forall|day: int| !#[trigger] covered_by_day(
        day,
        minute,
        hour,
        days@,
        duration_minutes,
        now,
    ) by {
        if day <= today - offset {
            assert(window_start(day, minute, hour) + duration_minutes * 60 <= now.secs);
        }
    }
    false
}

// ---------------------------------------------------------------------------------------------
// Writing

/// Whether the sequence strictly increases.
pub open spec fn increasing(s: Seq<u32>) -> bool {
    forall|i: int, j: int| 0 <= i < j < s.len() ==> s[i] < s[j]
}

/// Whether `u` lists the members of `s` in increasing order, each once.
pub open spec fn lists_members(u: Seq<u32>, s: Seq<u32>) -> bool {
    increasing(u) && forall|d: u32| #[trigger] u.contains(d) <==> s.contains(d)
}

/// The members of `s` in increasing order, each once.
pub open spec fn sorted_set(s: Seq<u32>) -> Seq<u32> {
    choose|u: Seq<u32>| lists_members(u, s)
}

/// There is only one increasing list of a sequence's members.
pub proof fn lemma_sorted_set(u: Seq<u32>, s: Seq<u32>)
    requires
        lists_members(u, s),
    ensures
        sorted_set(s) == u,
{
    let v = sorted_set(s);
    assert(lists_members(v, s));
    lemma_same_members(u, v);
}

proof fn lemma_same_members(u: Seq<u32>, v: Seq<u32>)
    requires
        increasing(u),
        increasing(v),
        forall|d: u32| #[trigger] u.contains(d) <==> v.contains(d),
    ensures
        u == v,
    decreases u.len(),
{
    if u.len() == 0 {
        if v.len() > 0 {
            assert(v.contains(v[0]));
            assert(u.contains(v[0]));
        }
        assert(u =~= v);
    } else {
        assert(u.contains(u.last()));
        assert(v.len() > 0);
        assert(v.contains(v.last()));
        assert(u.contains(v.last()));
        let (iu, iv) = (u.len() - 1, v.len() - 1);
        let a = choose|a: int| 0 <= a < v.len() && v[a] == u.last();
        let b = choose|b: int| 0 <= b < u.len() && u[b] == v.last();
        assert(a == iv || v[a] < v[iv]);
        assert(b == iu || u[b] < u[iu]);
        assert(u.last() == v.last());
        let (x, y) = (u.drop_last(), v.drop_last());
        assert forall|d: u32| #[trigger] x.contains(d) <==> y.contains(d) by {
            if x.contains(d) {
                let k = choose|k: int| 0 <= k < x.len() && x[k] == d;
                assert(u[k] == d && u[k] < u[iu]);
                assert(u.contains(d));
                let m = choose|m: int| 0 <= m < v.len() && v[m] == d;
                assert(m != iv);
                assert(y[m] == d);
            }
            if y.contains(d) {
                let k = choose|k: int| 0 <= k < y.len() && y[k] == d;
                assert(v[k] == d && v[k] < v[iv]);
                assert(v.contains(d));
                assert(u.contains(d));
                let m = choose|m: int| 0 <= m < u.len() && u[m] == d;
                assert(m != iu);
                assert(x[m] == d);
            }
        }
        lemma_same_members(x, y);
        assert(u =~= x.push(u.last()));
        assert(v =~= y.push(v.last()));
    }
}

/// The decimal texts of the days.
pub open spec fn day_texts(days: Seq<u32>) -> Seq<Seq<char>> {
    days.map_values(|d: u32| decimal(d as nat))
}

/// Whether a weekday is among `days`. Days count modulo seven, so both 0 and 7 are Sunday.
pub open spec fn names_day(days: Seq<u32>, weekday: int) -> bool {
    exists|k: int| 0 <= k < days.len() && (#[trigger] days[k]) % 7 == weekday
}

/// Whether all seven days are among `days`.
pub open spec fn all_week(days: Seq<u32>) -> bool {
    forall|weekday: int| 0 <= weekday < 7 ==> #[trigger] names_day(days, weekday)
}

/// The day-of-week field: `*` when all seven days match, else the distinct days in order.
pub open spec fn dow_text(days: Seq<u32>) -> Seq<char> {
    if all_week(days) {
        "*"@
    } else {
        joined(day_texts(sorted_set(days)), seq![','])
    }
}

/// The cron of a window that opens on `days` at `minute_of_day`.
pub open spec fn window_cron(days: Seq<u32>, minute_of_day: u32) -> Seq<char> {
    decimal((minute_of_day % 60) as nat) + seq![' '] + decimal((minute_of_day / 60) as nat)
        + " * * "@ + dow_text(days)
}

/// The members of `days` in increasing order, each once.
fn distinct_days(days: &[u32]) -> (out: Vec<u32>)
    ensures
        out@ == sorted_set(days@),
        lists_members(out@, days@),
{
    let mut out: Vec<u32> = Vec::new();
    let mut i: usize = 0;
    assert(lists_members(out@, days@.take(0)));
    while i < days.len()
        invariant
            i <= days@.len(),
            lists_members(out@, days@.take(i as int)),
        decreases days@.len() - i,
    {
        let d = days[i];
        let mut at: usize = 0;
        while at < out.len() && out[at] < d
            invariant
                at <= out@.len(),
                forall|j: int| 0 <= j < at ==> out@[j] < d,
            decreases out@.len() - at,
        {
            at += 1;
        }
        let ghost before = out@;
        let ghost known = days@.take(i as int);
        let ghost now = days@.take(i + 1);
        assert(now == known.push(d));
        if at < out.len() && out[at] == d {
            assert(before.contains(d));
            assert forall|x: u32| #[trigger] out@.contains(x) <==> now.contains(x) by {
                if now.contains(x) && x != d {
                    let k = choose|k: int| 0 <= k < now.len() && now[k] == x;
                    assert(known[k] == x);
                }
                if known.contains(x) {
                    let k = choose|k: int| 0 <= k < known.len() && known[k] == x;
                    assert(now[k] == x);
                }
            }
        } else {
            assert(at < before.len() ==> d < before[at as int]);
            out.insert(at, d);
            assert(out@ == before.insert(at as int, d));
            assert forall|a: int, b: int| 0 <= a < b < out@.len() implies out@[a] < out@[b] by {
                let pa = if a < at {
                    a
                } else {
                    a - 1
                };
                let pb = if b < at {
                    b
                } else {
                    b - 1
                };
                if a != at && b != at {
                    assert(before[pa] < before[pb]);
                } else if a == at {
                    assert(b > at ==> before[at as int] <= before[pb]);
                }
            }
            assert forall|x: u32| #[trigger] out@.contains(x) <==> now.contains(x) by {
                if out@.contains(x) {
                    let k = choose|k: int| 0 <= k < out@.len() && out@[k] == x;
                    if k == at {
                        assert(now[i as int] == x);
                    } else {
                        assert(before[if k < at {
                            k
                        } else {
                            k - 1
                        }] == x);
                        assert(before.contains(x));
                        let m = choose|m: int| 0 <= m < known.len() && known[m] == x;
                        assert(now[m] == x);
                    }
                }
                if now.contains(x) {
                    if x == d {
                        assert(out@[at as int] == x);
                    } else {
                        let m = choose|m: int| 0 <= m < now.len() && now[m] == x;
                        assert(known[m] == x);
                        assert(before.contains(x));
                        let k = choose|k: int| 0 <= k < before.len() && before[k] == x;
                        assert(out@[if k < at {
                            k
                        } else {
                            k + 1
                        }] == x);
                    }
                }
            }
        }
        i += 1;
    }
    assert(days@.take(days@.len() as int) == days@);
    proof {
        lemma_sorted_set(out@, days@);
    }
    out
}

fn has_weekday(days: &[u32], weekday: u32) -> (b: bool)
    ensures
        b == names_day(days@, weekday as int),
{
    let mut i: usize = 0;
    while i < days.len()
        invariant
            i <= days@.len(),
            forall|k: int| 0 <= k < i ==> (#[trigger] days@[k]) % 7 != weekday,
        decreases days@.len() - i,
    {
        if days[i] % 7 == weekday {
            return true;
        }
        i += 1;
    }
    false
}

fn covers_the_week(days: &[u32]) -> (b: bool)
    ensures
        b == all_week(days@),
{
    let mut d: u32 = 0;
    while d < 7
        invariant
            d <= 7,
            forall|weekday: int| 0 <= weekday < d ==> #[trigger] names_day(days@, weekday),
        decreases 7 - d,
    {
        if !has_weekday(days, d) {
            return false;
        }
        d += 1;
    }
    true
}

/// A KEDA-style cron for a weekly window: `MIN HOUR * * DOW`, with `*` when all seven days match.
pub fn weekly_window_cron(days: &[u32], minute_of_day: u32) -> (cron: String)
    ensures
        cron@ == window_cron(days@, minute_of_day),
{
    let mut cron = String::new();
    push_decimal(&mut cron, (minute_of_day % 60) as u64);
    cron.push(' ');
    push_decimal(&mut cron, (minute_of_day / 60) as u64);
    cron.append(" * * ");
    assert(cron@ == decimal((minute_of_day % 60) as nat) + seq![' '] + decimal(
        (minute_of_day / 60) as nat,
    ) + " * * "@);
    if covers_the_week(days) {
        cron.append("*");
    } else {
        let distinct = distinct_days(days);
        let ghost texts = day_texts(distinct@);
        let ghost head = cron@;
        let mut i: usize = 0;
        assert(head + joined(texts.take(0), seq![',']) == head);
        while i < distinct.len()
            invariant
                i <= distinct@.len(),
                texts == day_texts(distinct@),
                cron@ == head + joined(texts.take(i as int), seq![',']),
            decreases distinct@.len() - i,
        {
            assert(texts.take(i + 1).drop_last() == texts.take(i as int));
            if i > 0 {
                cron.push(',');
            }
            push_decimal(&mut cron, distinct[i] as u64);
            assert(cron@ == head + joined(texts.take(i + 1), seq![',']));
            i += 1;
        }
        assert(texts.take(texts.len() as int) == texts);
    }
    cron
}

// ---------------------------------------------------------------------------------------------
// Laws

/// The weekday numbers of `days`, in order.
pub open spec fn reduced(days: Seq<u32>) -> Seq<u32> {
    days.map_values(|d: u32| (d % 7) as u32)
}

/// The days as they are read back: all seven, or the weekday numbers of the distinct days in order.
pub open spec fn read_days(days: Seq<u32>) -> Seq<u32> {
    if all_week(days) {
        every_day()
    } else {
        reduced(sorted_set(days))
    }
}

/// Whether every day is a weekday number.
pub open spec fn weekdays(days: Seq<u32>) -> bool {
    forall|i: int| 0 <= i < days.len() ==> #[trigger] days[i] < 7
}

/// Every sequence has an increasing list of its members.
pub proof fn lemma_sorted_set_lists(s: Seq<u32>)
    ensures
        lists_members(sorted_set(s), s),
    decreases s.len(),
{
    if s.len() == 0 {
        assert(lists_members(Seq::<u32>::empty(), s));
    } else {
        let rest = s.drop_last();
        lemma_sorted_set_lists(rest);
        lemma_insert_member(sorted_set(rest), rest, s.last());
        assert(rest.push(s.last()) == s);
    }
}

proof fn lemma_insert_member(u: Seq<u32>, s: Seq<u32>, d: u32)
    requires
        lists_members(u, s),
    ensures
        exists|v: Seq<u32>| lists_members(v, s.push(d)),
    decreases u.len(),
{
    let t = s.push(d);
    assert forall|x: u32| #[trigger] t.contains(x) <==> (s.contains(x) || x == d) by {
        if s.contains(x) {
            let k = choose|k: int| 0 <= k < s.len() && s[k] == x;
            assert(t[k] == x);
        }
        if x == d {
            assert(t[s.len() as int] == x);
        }
        if t.contains(x) && x != d {
            let k = choose|k: int| 0 <= k < t.len() && t[k] == x;
            assert(s[k] == x);
        }
    }
    if u.contains(d) {
        assert(lists_members(u, t));
    } else {
        let at = lemma_cut(u, d);
        let v = u.insert(at, d);
        assert forall|a: int, b: int| 0 <= a < b < v.len() implies v[a] < v[b] by {}
        assert forall|x: u32| #[trigger] v.contains(x) <==> t.contains(x) by {
            if v.contains(x) {
                let k = choose|k: int| 0 <= k < v.len() && v[k] == x;
                if k != at {
                    let m = if k < at {
                        k
                    } else {
                        k - 1
                    };
                    assert(u[m] == x);
                    assert(u.contains(x));
                }
            }
            if t.contains(x) {
                if x == d {
                    assert(v[at] == x);
                } else {
                    assert(u.contains(x));
                    let k = choose|k: int| 0 <= k < u.len() && u[k] == x;
                    let m = if k < at {
                        k
                    } else {
                        k + 1
                    };
                    assert(v[m] == x);
                }
            }
        }
        assert(lists_members(v, t));
    }
}

proof fn lemma_cut(u: Seq<u32>, d: u32) -> (at: int)
    requires
        increasing(u),
        !u.contains(d),
    ensures
        0 <= at <= u.len(),
        forall|i: int| 0 <= i < at ==> u[i] < d,
        forall|i: int| at <= i < u.len() ==> d < u[i],
    decreases u.len(),
{
    if u.len() == 0 {
        0
    } else if u.last() < d {
        assert forall|i: int| 0 <= i < u.len() implies u[i] < d by {
            assert(i == u.len() - 1 || u[i] < u[u.len() - 1]);
        }
        u.len() as int
    } else {
        assert(u.contains(u.last()));
        let rest = u.drop_last();
        assert forall|x: u32| rest.contains(x) implies u.contains(x) by {
            let k = choose|k: int| 0 <= k < rest.len() && rest[k] == x;
            assert(u[k] == x);
        }
        let at = lemma_cut(rest, d);
        assert forall|i: int| at <= i < u.len() implies d < u[i] by {
            if i < rest.len() {
                assert(rest[i] == u[i]);
            }
        }
        assert forall|i: int| 0 <= i < at implies u[i] < d by {
            assert(rest[i] == u[i]);
        }
        at
    }
}

/// The days of single-number parts are those numbers.
proof fn lemma_number_parts(days: Seq<u32>)
    ensures
        parts_days(day_texts(days)) == Some(reduced(days)),
    decreases days.len(),
{
    let texts = day_texts(days);
    if days.len() == 0 {
        assert(reduced(days) =~= Seq::<u32>::empty());
    } else {
        let d = days.last();
        let part = decimal(d as nat);
        assert(texts.drop_last() =~= day_texts(days.drop_last()));
        lemma_number_parts(days.drop_last());
        crate::text::law_decimal_reads_back(d as nat);
        crate::text::law_u32_reads_back(d);
        assert forall|i: int| 0 <= i < part.len() implies #[trigger] part[i] != '-' by {
            assert(crate::text::is_digit(part[i]));
        }
        crate::text::lemma_no_char(part, '-');
        assert(texts.last() == part);
        assert(reduced(days) =~= reduced(days.drop_last()) + seq![(d % 7) as u32]);
    }
}

/// Reading a written day field gives the days back.
proof fn lemma_dow_reads_back(days: Seq<u32>)
    requires
        days.len() > 0,
    ensures
        dow_days(dow_text(days)) == Some(read_days(days)),
        dow_text(days).len() > 0,
        forall|i: int|
            0 <= i < dow_text(days).len() ==> !crate::text::is_space(#[trigger] dow_text(days)[i]),
{
    reveal_strlit("*");
    if !all_week(days) {
        let set = sorted_set(days);
        lemma_sorted_set_lists(days);
        assert(days.contains(days[0]));
        assert(set.contains(days[0]));
        let texts = day_texts(set);
        lemma_number_parts(set);
        assert forall|p: int, i: int|
            0 <= p < texts.len() && 0 <= i < texts[p].len() implies crate::text::is_digit(
            #[trigger] texts[p][i],
        ) by {
            crate::text::law_decimal_reads_back(set[p] as nat);
            assert(texts[p] == decimal(set[p] as nat));
        }
        crate::text::law_split_undoes_join(texts, ',');
        let text = dow_text(days);
        assert forall|i: int| 0 <= i < text.len() implies crate::text::is_digit(
            #[trigger] text[i],
        ) || text[i] == ',' by {
            crate::text::lemma_joined_chars(texts, ',', i);
        }
        crate::text::law_decimal_reads_back(set[0] as nat);
        assert(texts[0] == decimal(set[0] as nat));
        lemma_joined_nonempty(texts);
        assert(text != "*"@) by {
            if text == "*"@ {
                assert(text[0] == '*');
            }
        }
    }
}

proof fn lemma_joined_nonempty(parts: Seq<Seq<char>>)
    requires
        parts.len() > 0,
        parts[0].len() > 0,
    ensures
        joined(parts, seq![',']).len() > 0,
    decreases parts.len(),
{
    if parts.len() > 1 {
        assert(parts.drop_last()[0] == parts[0]);
        lemma_joined_nonempty(parts.drop_last());
    }
}

/// Whether a text is a word: not empty, and without white space.
pub open spec fn is_word(s: Seq<char>) -> bool {
    s.len() > 0 && forall|i: int| 0 <= i < s.len() ==> !crate::text::is_space(#[trigger] s[i])
}

/// Five words with a space between neighbours.
pub open spec fn spaced(
    a: Seq<char>,
    b: Seq<char>,
    c: Seq<char>,
    d: Seq<char>,
    e: Seq<char>,
) -> Seq<char> {
    a + seq![' '] + (b + seq![' '] + (c + seq![' '] + (d + seq![' '] + e)))
}

proof fn lemma_five_words(a: Seq<char>, b: Seq<char>, c: Seq<char>, d: Seq<char>, e: Seq<char>)
    requires
        is_word(a),
        is_word(b),
        is_word(c),
        is_word(d),
        is_word(e),
    ensures
        words_of(spaced(a, b, c, d, e)) == seq![a, b, c, d, e],
{
    crate::text::lemma_one_word(a);
    crate::text::lemma_one_word(b);
    crate::text::lemma_one_word(c);
    crate::text::lemma_one_word(d);
    crate::text::lemma_one_word(e);
    let s4 = d + seq![' '] + e;
    let s3 = c + seq![' '] + s4;
    let s2 = b + seq![' '] + s3;
    crate::text::lemma_words_around(d, ' ', e);
    crate::text::lemma_words_around(c, ' ', s4);
    crate::text::lemma_words_around(b, ' ', s3);
    crate::text::lemma_words_around(a, ' ', s2);
    assert(words_of(spaced(a, b, c, d, e)) =~= seq![a] + (seq![b] + (seq![c] + (seq![d]
        + seq![e]))));
    assert(seq![a] + (seq![b] + (seq![c] + (seq![d] + seq![e]))) =~= seq![a, b, c, d, e]);
}

proof fn lemma_cron_shape(days: Seq<u32>, minute_of_day: u32)
    ensures
        window_cron(days, minute_of_day) == spaced(
            decimal((minute_of_day % 60) as nat),
            decimal((minute_of_day / 60) as nat),
            seq!['*'],
            seq!['*'],
            dow_text(days),
        ),
{
    reveal_strlit(" * * ");
    let (a, b) = (decimal((minute_of_day % 60) as nat), decimal((minute_of_day / 60) as nat));
    let e = dow_text(days);
    assert(window_cron(days, minute_of_day) =~= spaced(a, b, seq!['*'], seq!['*'], e));
}

proof fn lemma_decimal_is_word(n: nat)
    ensures
        is_word(decimal(n)),
{
    crate::text::law_decimal_reads_back(n);
    assert forall|i: int| 0 <= i < decimal(n).len() implies !crate::text::is_space(
        #[trigger] decimal(n)[i],
    ) by {
        assert(crate::text::is_digit(decimal(n)[i]));
    }
}

/// The five fields of a written window cron.
pub proof fn lemma_cron_words(days: Seq<u32>, minute_of_day: u32)
    requires
        days.len() > 0,
    ensures
        words_of(window_cron(days, minute_of_day)) == seq![
            decimal((minute_of_day % 60) as nat),
            decimal((minute_of_day / 60) as nat),
            seq!['*'],
            seq!['*'],
            dow_text(days),
        ],
{
    lemma_cron_shape(days, minute_of_day);
    lemma_decimal_is_word((minute_of_day % 60) as nat);
    lemma_decimal_is_word((minute_of_day / 60) as nat);
    lemma_dow_reads_back(days);
    lemma_five_words(
        decimal((minute_of_day % 60) as nat),
        decimal((minute_of_day / 60) as nat),
        seq!['*'],
        seq!['*'],
        dow_text(days),
    );
}

/// The days that are read back name exactly the weekdays that were written.
proof fn lemma_read_days(days: Seq<u32>)
    ensures
        forall|d: u32| #[trigger]
            read_days(days).contains(d) <==> d < 7 && names_day(days, d as int),
{
    let (set, read) = (sorted_set(days), read_days(days));
    lemma_sorted_set_lists(days);
    assert forall|d: u32| #[trigger] read.contains(d) <==> d < 7 && names_day(days, d as int) by {
        if all_week(days) {
            if d < 7 {
                assert(names_day(days, d as int));
                assert(read[d as int] == d);
            }
        } else {
            if read.contains(d) {
                let i = choose|i: int| 0 <= i < read.len() && read[i] == d;
                assert(set.contains(set[i]));
                let k = choose|k: int| 0 <= k < days.len() && days[k] == set[i];
                assert(days[k] % 7 == d);
            }
            if names_day(days, d as int) {
                let k = choose|k: int| 0 <= k < days.len() && (#[trigger] days[k]) % 7 == d;
                assert(days.contains(days[k]));
                assert(set.contains(days[k]));
                let i = choose|i: int| 0 <= i < set.len() && set[i] == days[k];
                assert(read[i] == d);
            }
        }
    }
}

/// Where only weekday numbers are written, the distinct ones are read back in order.
proof fn lemma_weekdays_read_back(days: Seq<u32>)
    requires
        weekdays(days),
    ensures
        read_days(days) == sorted_set(days),
{
    let set = sorted_set(days);
    lemma_sorted_set_lists(days);
    if all_week(days) {
        let week = every_day();
        assert forall|d: u32| #[trigger] week.contains(d) <==> days.contains(d) by {
            if days.contains(d) {
                let k = choose|k: int| 0 <= k < days.len() && days[k] == d;
                assert(days[k] < 7);
                assert(week[d as int] == d);
            }
            if week.contains(d) {
                assert(names_day(days, d as int));
                let k = choose|k: int| 0 <= k < days.len() && (#[trigger] days[k]) % 7 == d;
                assert(days[k] < 7);
                assert(days[k] == d);
            }
        }
        lemma_sorted_set(week, days);
    } else {
        assert forall|i: int| 0 <= i < set.len() implies #[trigger] set[i] < 7 by {
            assert(set.contains(set[i]));
            let k = choose|k: int| 0 <= k < days.len() && days[k] == set[i];
            assert(days[k] < 7);
        }
        assert(reduced(set) =~= set);
    }
}

/// A written window cron reads back as the minute, the hour and the weekdays it was written for:
/// where only weekday numbers were written, the distinct ones in order.
pub proof fn law_cron_reads_back(days: Seq<u32>, minute_of_day: u32)
    requires
        days.len() > 0,
        minute_of_day < 1440,
    ensures
        cron_fields(window_cron(days, minute_of_day)) == Some(
            ((minute_of_day % 60) as u32, (minute_of_day / 60) as u32, read_days(days)),
        ),
        forall|d: u32| #[trigger]
            read_days(days).contains(d) <==> d < 7 && names_day(days, d as int),
        weekdays(days) ==> read_days(days) == sorted_set(days),
{
    lemma_cron_words(days, minute_of_day);
    crate::text::law_u32_reads_back((minute_of_day % 60) as u32);
    crate::text::law_u32_reads_back((minute_of_day / 60) as u32);
    lemma_dow_reads_back(days);
    lemma_read_days(days);
    if weekdays(days) {
        lemma_weekdays_read_back(days);
    }
}

/// A window written for some days is active exactly while an occurrence that opened on one of
/// those days lasts.
pub proof fn law_written_window_active(
    days: Seq<u32>,
    minute_of_day: u32,
    duration_minutes: i32,
    now: Timestamp,
)
    requires
        days.len() > 0,
        minute_of_day < 1440,
    ensures
        cron_active(window_cron(days, minute_of_day), duration_minutes, now) <==> exists|day: int|
            #![trigger weekday_of_day(day)]
            names_day(days, weekday_of_day(day)) && (day * 1440 + minute_of_day)
                * 60_000_000_000 <= now.instant() < (day * 1440 + minute_of_day
                + duration_minutes) * 60_000_000_000,
{
    law_cron_reads_back(days, minute_of_day);
    let (m, h) = ((minute_of_day % 60) as u32, (minute_of_day / 60) as u32);
    let open = read_days(days);
    if cron_active(window_cron(days, minute_of_day), duration_minutes, now) {
        let day = choose|day: int| #[trigger]
            covered_by_day(day, m, h, open, duration_minutes, now);
        assert(open.contains(weekday_of_day(day) as u32));
    }
    assert forall|day: int|
        names_day(days, #[trigger] weekday_of_day(day)) && (day * 1440
            + minute_of_day) * 60_000_000_000 <= now.instant() < (day * 1440 + minute_of_day
            + duration_minutes) * 60_000_000_000 implies cron_active(
        window_cron(days, minute_of_day),
        duration_minutes,
        now,
    ) by {
        assert(open.contains(weekday_of_day(day) as u32));
        assert(covered_by_day(day, m, h, open, duration_minutes, now));
    }
}

/// A cron is read as its minute, its hour and its days, where it has five fields, the minute is at
/// most 59 and the hour at most 23; it is refused otherwise.
pub proof fn law_cron_shape(cron: Seq<char>)
    ensures
        ({
            let fields = words_of(cron);
            let (minute, hour) = (u32_of(fields[0]), u32_of(fields[1]));
            let days = dow_days(fields[4]);
            &&& fields.len() == 5 && minute is Some && minute->0 < 60 && hour is Some && hour->0
                < 24 && days is Some ==> cron_fields(cron) == Some((minute->0, hour->0, days->0))
            &&& fields.len() != 5 || minute is None || minute->0 >= 60 || hour is None || hour->0
                >= 24 || days is None ==> cron_fields(cron) is None
        }),
{
}

/// A day field names all days with `*`; else the days of each of its parts, in order, and it is
/// refused where one of them is malformed.
pub proof fn law_day_parts_are_read_one_by_one(some: Seq<Seq<char>>, more: Seq<Seq<char>>)
    ensures
        parts_days(some) is None || parts_days(more) is None ==> parts_days(some + more) is None,
        parts_days(some) is Some && parts_days(more) is Some ==> parts_days(some + more) == Some(
            parts_days(some)->0 + parts_days(more)->0,
        ),
        some.len() == 1 ==> parts_days(some) == part_days(some[0]),
        dow_days("*"@) == Some(seq![0u32, 1, 2, 3, 4, 5, 6]),
    decreases more.len(),
{
    assert(every_day() =~= seq![0u32, 1, 2, 3, 4, 5, 6]);
    if some.len() == 1 {
        reveal_with_fuel(parts_days, 2);
        assert(some.drop_last() =~= Seq::<Seq<char>>::empty());
        if let Some(here) = part_days(some[0]) {
            assert(Seq::<u32>::empty() + here =~= here);
        }
    }
    if more.len() == 0 {
        assert(some + more =~= some);
        if let Some(days) = parts_days(some) {
            assert(days + Seq::<u32>::empty() =~= days);
        }
    } else {
        law_day_parts_are_read_one_by_one(some, more.drop_last());
        assert((some + more).drop_last() =~= some + more.drop_last());
        assert((some + more).last() == more.last());
        match (parts_days(some), parts_days(more.drop_last()), part_days(more.last())) {
            (Some(a), Some(b), Some(c)) => {
                assert(a + b + c =~= a + (b + c));
            },
            _ => {},
        }
    }
}

/// A part is one day, or a range of days from its first to its last; days count modulo seven.
pub proof fn law_day_parts_are_days_and_ranges(a: u32, b: u32, i: int)
    ensures
        part_days(decimal(a as nat)) == Some(seq![(a % 7) as u32]),
        ({
            let range = part_days(decimal(a as nat) + seq!['-'] + decimal(b as nat));
            &&& range is Some
            &&& a <= b ==> range->0.len() == b - a + 1
            &&& a > b ==> range->0.len() == 0
            &&& 0 <= i <= b - a ==> range->0[i] == ((a + i) % 7) as u32
        }),
{
    let (x, y) = (decimal(a as nat), decimal(b as nat));
    crate::text::law_decimal_reads_back(a as nat);
    crate::text::law_u32_reads_back(a);
    crate::text::law_u32_reads_back(b);
    assert forall|i: int| 0 <= i < x.len() implies #[trigger] x[i] != '-' by {
        assert(crate::text::is_digit(x[i]));
    }
    crate::text::lemma_no_char(x, '-');
    let part = x + seq!['-'] + y;
    lemma_before_dash(x, y);
    assert(part.skip(x.len() as int + 1) =~= y);
}

proof fn lemma_before_dash(x: Seq<char>, y: Seq<char>)
    requires
        forall|i: int| 0 <= i < x.len() ==> #[trigger] x[i] != '-',
    ensures
        before_char(x + seq!['-'] + y, '-') == x,
    decreases x.len(),
{
    let part = x + seq!['-'] + y;
    if x.len() == 0 {
        assert(part[0] == '-');
        assert(before_char(part, '-') =~= x);
    } else {
        let rest = x.drop_first();
        assert(part.drop_first() =~= rest + seq!['-'] + y);
        assert(part[0] == x[0]);
        lemma_before_dash(rest, y);
        assert(seq![x[0]] + rest =~= x);
    }
}

/// A window is open from its opening time on one of its days until its length is over, whatever
/// midnights lie between; a cron that is refused is never open.
pub proof fn law_window_is_open_for_its_length(
    cron: Seq<char>,
    duration_minutes: i32,
    now: Timestamp,
    day: int,
)
    ensures
        cron_fields(cron) is None ==> !cron_active(cron, duration_minutes, now),
        cron_fields(cron) matches Some((minute, hour, days)) ==> {
            let opened = (day * 24 * 60 + hour * 60 + minute) * 60 * 1_000_000_000;
            days.contains(weekday_of_day(day) as u32) && opened <= now.instant() < opened
                + duration_minutes * 60 * 1_000_000_000 ==> cron_active(cron, duration_minutes, now)
        },
{
    if let Some((minute, hour, days)) = cron_fields(cron) {
        let opened = (day * 24 * 60 + hour * 60 + minute) * 60 * 1_000_000_000;
        if days.contains(weekday_of_day(day) as u32) && opened <= now.instant() < opened
            + duration_minutes * 60 * 1_000_000_000 {
            assert(covered_by_day(day, minute, hour, days, duration_minutes, now));
        }
    }
}

/// A window that is open did open: the result is the day, one of its own, on which it did.
pub proof fn law_open_window_did_open(cron: Seq<char>, duration_minutes: i32, now: Timestamp) -> (day:
    int)
    requires
        cron_active(cron, duration_minutes, now),
    ensures
        cron_fields(cron) is Some,
        ({
            let (minute, hour, days) = cron_fields(cron)->0;
            let opened = (day * 24 * 60 + hour * 60 + minute) * 60 * 1_000_000_000;
            days.contains(weekday_of_day(day) as u32) && opened <= now.instant() < opened
                + duration_minutes * 60 * 1_000_000_000
        }),
{
    let (minute, hour, days) = cron_fields(cron)->0;
    choose|day: int| #[trigger] covered_by_day(day, minute, hour, days, duration_minutes, now)
}

} // verus!
