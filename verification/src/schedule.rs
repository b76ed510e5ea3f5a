//! Turning a weekly forecast into a proactive schedule.
use vstd::prelude::*;
#[allow(unused_imports)]
use vstd::math::{max, min};

#[allow(unused_imports)]
use crate::clock::{weekday_of_day, Timestamp};
use crate::cron::weekly_window_cron;
#[allow(unused_imports)]
use crate::cron::{
    cron_active, cron_fields, law_cron_reads_back, law_written_window_active, names_day,
    window_cron,
};
#[allow(unused_imports)]
use crate::domain::{schedule_view, WindowView};
use crate::domain::{ScalingSchedule, ScheduleWindow};
#[allow(unused_imports)]
use crate::forecast::{day_bins, law_grid_covers_the_day, weekly_index};

verus! {

/// One stretch of a day in which the forecast exceeds the baseline: when its window opens, how
/// long it lasts, the floor it asks for, and its day.
#[derive(Debug, Clone, Copy, PartialEq, Eq, Structural)]
pub struct Peak {
    pub start_minute: u32,
    pub duration_minutes: i32,
    pub min_replicas: i32,
    pub day: u32,
}

/// What the schedule is built from: the replicas that each bin of the week needs, the number of
/// bins per day and their length, the off-peak floor, the ceiling, and the lead of a window.
pub ghost struct Demand {
    pub bins: Seq<i32>,
    pub bins_per_day: int,
    pub bin_minutes: u32,
    pub baseline: i32,
    pub max_replicas: i32,
    pub lead_minutes: i64,
}

impl Demand {
    /// The replicas that a bin of a day needs.
    pub open spec fn needed(self, day: int, bin: int) -> i32 {
        self.bins[day * self.bins_per_day + bin]
    }

    /// Whether a bin of a day needs more than the baseline.
    pub open spec fn exceeds(self, day: int, bin: int) -> bool {
        self.needed(day, bin) > self.baseline
    }

    /// The length of a bin in minutes.
    pub open spec fn width(self) -> int {
        (self.bin_minutes as i32) as int
    }

    /// The lead, at least zero.
    pub open spec fn lead(self) -> int {
        if self.lead_minutes <= 0 {
            0
        } else if self.lead_minutes <= i32::MAX {
            self.lead_minutes as int
        } else {
            i32::MAX as int
        }
    }

    /// The end of the run of exceeding bins that begins at `bin` (`bin` itself when there is none).
    pub open spec fn run_end(self, day: int, bin: int) -> int
        decreases self.bins_per_day - bin,
    {
        if bin < self.bins_per_day && self.exceeds(day, bin) {
            self.run_end(day, bin + 1)
        } else {
            bin
        }
    }

    /// The highest need among the bins `from..to`.
    pub open spec fn highest(self, day: int, from: int, to: int) -> i32
        decreases to - from,
    {
        if to <= from + 1 {
            self.needed(day, from)
        } else {
            let before = self.highest(day, from, to - 1);
            if self.needed(day, to - 1) > before {
                self.needed(day, to - 1)
            } else {
                before
            }
        }
    }

    /// The window of the run `from..to`: it opens the lead early, but not before midnight, lasts
    /// to the end of the run, and never asks for more than the ceiling.
    pub open spec fn peak(self, day: int, from: int, to: int) -> Peak {
        let raw = from * self.width();
        let start = if raw - self.lead() > 0 {
            raw - self.lead()
        } else {
            0
        };
        let highest = self.highest(day, from, to);
        Peak {
            start_minute: start as u32,
            duration_minutes: ((to - from) * self.width() + (raw - start)) as i32,
            min_replicas: if highest < self.max_replicas {
                highest
            } else {
                self.max_replicas
            },
            day: day as u32,
        }
    }

    /// The peaks of a day from `bin` on.
    pub open spec fn day_peaks(self, day: int, bin: int) -> Seq<Peak>
        decreases self.bins_per_day - bin,
    {
        if bin >= self.bins_per_day {
            Seq::empty()
        } else if self.exceeds(day, bin) {
            proof {
                lemma_run_end(self, day, bin + 1);
            }
            seq![self.peak(day, bin, self.run_end(day, bin))] + self.day_peaks(
                day,
                self.run_end(day, bin),
            )
        } else {
            self.day_peaks(day, bin + 1)
        }
    }

    /// The peaks of the first `days` days.
    pub open spec fn peaks(self, days: int) -> Seq<Peak>
        decreases days,
    {
        if days <= 0 {
            Seq::empty()
        } else {
            self.peaks(days - 1) + self.day_peaks(days - 1, 0)
        }
    }
}

/// Whether `a` comes before `b`: by opening minute, then length, then floor.
pub open spec fn window_before(a: Peak, b: Peak) -> bool {
    ||| a.start_minute < b.start_minute
    ||| a.start_minute == b.start_minute && a.duration_minutes < b.duration_minutes
    ||| a.start_minute == b.start_minute && a.duration_minutes == b.duration_minutes
        && a.min_replicas < b.min_replicas
}

/// Whether two peaks ask for the same window.
pub open spec fn same_window(a: Peak, b: Peak) -> bool {
    a.start_minute == b.start_minute && a.duration_minutes == b.duration_minutes
        && a.min_replicas == b.min_replicas
}

/// The days on which a peak's window occurs among `peaks`, in order.
pub open spec fn window_days(peaks: Seq<Peak>, p: Peak) -> Seq<u32>
    decreases peaks.len(),
{
    if peaks.len() == 0 {
        Seq::empty()
    } else {
        let before = window_days(peaks.drop_last(), p);
        if same_window(peaks.last(), p) {
            before.push(peaks.last().day)
        } else {
            before
        }
    }
}

/// Whether a peak's window occurs among `peaks`.
pub open spec fn has_window(peaks: Seq<Peak>, p: Peak) -> bool {
    exists|k: int| 0 <= k < peaks.len() && same_window(#[trigger] peaks[k], p)
}

/// Whether the windows strictly ascend.
pub open spec fn windows_ascend(order: Seq<Peak>) -> bool {
    forall|i: int, j: int| 0 <= i < j < order.len() ==> window_before(order[i], order[j])
}

/// Whether `order` lists each window among `peaks` once, in ascending order.
pub open spec fn lists_windows(order: Seq<Peak>, peaks: Seq<Peak>) -> bool {
    &&& windows_ascend(order)
    &&& forall|p: Peak| #[trigger] has_window(order, p) <==> has_window(peaks, p)
}

/// The schedule entry of a window: one cron for all its days.
pub open spec fn entry(peaks: Seq<Peak>, p: Peak) -> WindowView {
    WindowView {
        start_cron: window_cron(window_days(peaks, p), p.start_minute),
        duration_minutes: p.duration_minutes,
        min_replicas: p.min_replicas,
    }
}

/// The schedule of a list of peaks: one entry per distinct window, in ascending order.
pub open spec fn schedule_of(peaks: Seq<Peak>, schedule: Seq<WindowView>) -> bool {
    exists|order: Seq<Peak>| #[trigger]
        lists_windows(order, peaks) && schedule == order.map_values(|p: Peak| entry(peaks, p))
}

/// A run ends at the first bin that does not exceed the baseline, at the latest with the day.
pub proof fn lemma_run_end(d: Demand, day: int, bin: int)
    requires
        bin <= d.bins_per_day,
    ensures
        bin <= d.run_end(day, bin) <= d.bins_per_day,
        forall|i: int| bin <= i < d.run_end(day, bin) ==> #[trigger] d.exceeds(day, i),
        d.run_end(day, bin) < d.bins_per_day ==> !d.exceeds(day, d.run_end(day, bin)),
    decreases d.bins_per_day - bin,
{
    if bin < d.bins_per_day && d.exceeds(day, bin) {
        lemma_run_end(d, day, bin + 1);
    }
}

fn same(a: &Peak, b: &Peak) -> (r: bool)
    ensures
        r == same_window(*a, *b),
{
    a.start_minute == b.start_minute && a.duration_minutes == b.duration_minutes
        && a.min_replicas == b.min_replicas
}

fn comes_before(a: &Peak, b: &Peak) -> (r: bool)
    ensures
        r == window_before(*a, *b),
{
    if a.start_minute != b.start_minute {
        a.start_minute < b.start_minute
    } else if a.duration_minutes != b.duration_minutes {
        a.duration_minutes < b.duration_minutes
    } else {
        a.min_replicas < b.min_replicas
    }
}

proof fn lemma_has_window_push(s: Seq<Peak>, x: Peak, p: Peak)
    ensures
        has_window(s.push(x), p) <==> has_window(s, p) || same_window(x, p),
{
    let t = s.push(x);
    if has_window(s, p) {
        let k = choose|k: int| 0 <= k < s.len() && same_window(#[trigger] s[k], p);
        assert(same_window(t[k], p));
    }
    if same_window(x, p) {
        assert(same_window(t[s.len() as int], p));
    }
    if has_window(t, p) {
        let k = choose|k: int| 0 <= k < t.len() && same_window(#[trigger] t[k], p);
        if k < s.len() {
            assert(same_window(s[k], p));
        }
    }
}

proof fn lemma_has_window_insert(s: Seq<Peak>, at: int, x: Peak, p: Peak)
    requires
        0 <= at <= s.len(),
    ensures
        has_window(s.insert(at, x), p) <==> has_window(s, p) || same_window(x, p),
{
    let t = s.insert(at, x);
    if has_window(s, p) {
        let k = choose|k: int| 0 <= k < s.len() && same_window(#[trigger] s[k], p);
        let m = if k < at {
            k
        } else {
            k + 1
        };
        assert(same_window(t[m], p));
    }
    if same_window(x, p) {
        assert(same_window(t[at], p));
    }
    if has_window(t, p) {
        let k = choose|k: int| 0 <= k < t.len() && same_window(#[trigger] t[k], p);
        if k != at {
            let m = if k < at {
                k
            } else {
                k - 1
            };
            assert(same_window(s[m], p));
        }
    }
}

proof fn lemma_insert_ascends(s: Seq<Peak>, at: int, x: Peak)
    requires
        0 <= at <= s.len(),
        windows_ascend(s),
        forall|j: int| 0 <= j < at ==> window_before(#[trigger] s[j], x),
        at < s.len() ==> window_before(x, s[at]),
    ensures
        windows_ascend(s.insert(at, x)),
{
    let t = s.insert(at, x);
    assert forall|i: int, j: int| 0 <= i < j < t.len() implies window_before(t[i], t[j]) by {
        let a = if i < at {
            i
        } else {
            i - 1
        };
        let b = if j < at {
            j
        } else {
            j - 1
        };
        if i != at && j != at {
            assert(window_before(s[a], s[b]));
        } else if i == at {
            assert(b == at || window_before(s[at], s[b]));
        }
    }
}

/// The windows among `peaks`, each once, in ascending order.
fn window_order(peaks: &Vec<Peak>) -> (order: Vec<Peak>)
    ensures
        lists_windows(order@, peaks@),
{
    let mut order: Vec<Peak> = Vec::new();
    let mut n: usize = 0;
    while n < peaks.len()
        invariant
            n <= peaks@.len(),
            lists_windows(order@, peaks@.take(n as int)),
        decreases peaks@.len() - n,
    {
        let p = peaks[n];
        let mut at: usize = 0;
        while at < order.len() && comes_before(&order[at], &p)
            invariant
                at <= order@.len(),
                forall|j: int| 0 <= j < at ==> window_before(#[trigger] order@[j], p),
            decreases order@.len() - at,
        {
            at += 1;
        }
        let ghost before = order@;
        let ghost known = peaks@.take(n as int);
        assert(peaks@.take(n + 1) == known.push(p));
        let found: bool = at < order.len() && same(&order[at], &p);
        if !found {
            proof {
                lemma_insert_ascends(before, at as int, p);
            }
            order.insert(at, p);
        }
        assert forall|q: Peak| #[trigger] has_window(order@, q) <==> has_window(
            known.push(p),
            q,
        ) by {
            assert(has_window(before, q) <==> has_window(known, q));
            lemma_has_window_push(known, p, q);
            if found {
                assert(same_window(before[at as int], p));
            } else {
                lemma_has_window_insert(before, at as int, p, q);
            }
        }
        n += 1;
    }
    assert(peaks@.take(peaks@.len() as int) == peaks@);
    order
}

fn days_of(peaks: &Vec<Peak>, p: &Peak) -> (days: Vec<u32>)
    ensures
        days@ == window_days(peaks@, *p),
{
    let mut days: Vec<u32> = Vec::new();
    let mut i: usize = 0;
    while i < peaks.len()
        invariant
            i <= peaks@.len(),
            days@ == window_days(peaks@.take(i as int), *p),
        decreases peaks@.len() - i,
    {
        assert(peaks@.take(i + 1).drop_last() == peaks@.take(i as int));
        if same(&peaks[i], p) {
            days.push(peaks[i].day);
        }
        i += 1;
    }
    assert(peaks@.take(peaks@.len() as int) == peaks@);
    days
}

/// Coalesce bins whose forecast exceeds the baseline into windows, starting `lead_minutes` early,
/// merging identical windows across days into one cron entry. The window floor is clamped to
/// `max_replicas` (a low target can push the raw forecast above the ceiling), and the lead is
/// clamped to the start of the day, so a peak that begins at midnight (bin 0) gets no head start.
///
/// `bins` holds the whole replicas that each bin of the week needs. A day's bins may not span more
/// minutes than an `i32` counts; a single bin per day may have any length.
pub fn build_schedule(
    bins: &Vec<i32>,
    bins_per_day: usize,
    bin_minutes: u32,
    baseline: i32,
    max_replicas: i32,
    lead_minutes: i64,
) -> (schedule: ScalingSchedule)
    requires
        7 * bins_per_day <= bins@.len(),
        bins_per_day <= 1 || bins_per_day * bin_minutes <= i32::MAX,
    ensures
        schedule_of(
            (Demand {
                bins: bins@,
                bins_per_day: bins_per_day as int,
                bin_minutes,
                baseline,
                max_replicas,
                lead_minutes,
            }).peaks(7),
            schedule_view(schedule@),
        ),
{
    let ghost d = Demand {
        bins: bins@,
        bins_per_day: bins_per_day as int,
        bin_minutes,
        baseline,
        max_replicas,
        lead_minutes,
    };
    let lead: i32 = if lead_minutes <= 0 {
        0
    } else if lead_minutes <= i32::MAX as i64 {
        lead_minutes as i32
    } else {
        i32::MAX
    };
    let width: i32 = bin_minutes as i32;
    let total: usize = bins.len();
    let mut peaks: Vec<Peak> = Vec::new();
    let mut day: u32 = 0;
    assert(d.peaks(0) == Seq::<Peak>::empty());
    while day < 7
        invariant
            day <= 7,
            d == (Demand {
                bins: bins@,
                bins_per_day: bins_per_day as int,
                bin_minutes,
                baseline,
                max_replicas,
                lead_minutes,
            }),
            lead == d.lead(),
            width == d.width(),
            7 * bins_per_day <= total == bins@.len(),
            bins_per_day <= 1 || bins_per_day * bin_minutes <= i32::MAX,
            peaks@ == d.peaks(day as int),
        decreases 7 - day,
    {
        let ghost done = peaks@;
        assert(day * bins_per_day + bins_per_day <= 7 * bins_per_day) by (nonlinear_arith)
            requires
                day <= 6,
        ;
        let base: usize = day as usize * bins_per_day;
        let mut bin: usize = 0;
        while bin < bins_per_day
            invariant
                bin <= bins_per_day,
                day < 7,
                d == (Demand {
                    bins: bins@,
                    bins_per_day: bins_per_day as int,
                    bin_minutes,
                    baseline,
                    max_replicas,
                    lead_minutes,
                }),
                lead == d.lead(),
                width == d.width(),
                base == day * bins_per_day,
                base + bins_per_day <= total == bins@.len(),
                bins_per_day <= 1 || bins_per_day * bin_minutes <= i32::MAX,
                done + d.day_peaks(day as int, 0) == peaks@ + d.day_peaks(day as int, bin as int),
            decreases bins_per_day - bin,
        {
            assert(bins@[base + bin] == d.needed(day as int, bin as int));
            let needed: i32 = bins[base + bin];
            if needed <= baseline {
                bin += 1;
                continue;
            }
            let mut end: usize = bin + 1;
            let mut peak: i32 = needed;
            assert(d.run_end(day as int, bin as int) == d.run_end(day as int, bin + 1));
            while end < bins_per_day && bins[base + end] > baseline
                invariant
                    bin < end <= bins_per_day,
                    d == (Demand {
                        bins: bins@,
                        bins_per_day: bins_per_day as int,
                        bin_minutes,
                        baseline,
                        max_replicas,
                        lead_minutes,
                    }),
                    base == day * bins_per_day,
                    base + bins_per_day <= total == bins@.len(),
                    d.run_end(day as int, bin as int) == d.run_end(day as int, end as int),
                    peak == d.highest(day as int, bin as int, end as int),
                decreases bins_per_day - end,
            {
                let here: i32 = bins[base + end];
                assert(here == d.needed(day as int, end as int));
                if here > peak {
                    peak = here;
                }
                end += 1;
            }
            assert(end < bins_per_day ==> bins@[base + end] == d.needed(day as int, end as int));
            assert(end == d.run_end(day as int, bin as int));
            proof {
                if bins_per_day > 1 {
                    let (n, w) = (bins_per_day as int, bin_minutes as int);
                    assert(w <= i32::MAX) by (nonlinear_arith)
                        requires
                            n >= 1,
                            n * w <= i32::MAX,
                            w >= 0,
                    ;
                    assert(width == bin_minutes);
                    assert(0 <= end * w <= n * w) by (nonlinear_arith)
                        requires
                            0 <= end <= n,
                            w >= 0,
                    ;
                    assert(0 <= bin * w <= end * w) by (nonlinear_arith)
                        requires
                            0 <= bin <= end,
                            w >= 0,
                    ;
                    assert((end - bin) * w == end * w - bin * w) by (nonlinear_arith);
                    assert(w == d.width());
                    assert(bin * w == bin * d.width());
                    assert((end - bin) * w == (end - bin) * d.width());
                    assert(n <= i32::MAX || w == 0) by (nonlinear_arith)
                        requires
                            n * w <= i32::MAX,
                            w >= 0,
                            n >= 0,
                    ;
                } else {
                    assert(bin == 0 && end == 1);
                    assert(bin * d.width() == 0 && (end - bin) * d.width() == d.width())
                        by (nonlinear_arith)
                        requires
                            bin == 0,
                            end == 1,
                    ;
                }
            }
            let (raw_start, length): (i32, i32) = if bins_per_day <= 1 {
                (0, width)
            } else {
                (
                    (bin as u64 * width as u64) as i32,
                    ((end - bin) as u64 * width as u64) as i32,
                )
            };
            assert(raw_start == bin * d.width());
            assert(length == (end - bin) * d.width());
            let start_minute: i32 = if raw_start - lead > 0 {
                raw_start - lead
            } else {
                0
            };
            let duration: i32 = length + (raw_start - start_minute);
            let floor: i32 = if peak < max_replicas {
                peak
            } else {
                max_replicas
            };
            let p = Peak {
                start_minute: start_minute as u32,
                duration_minutes: duration,
                min_replicas: floor,
                day,
            };
            assert(p == d.peak(day as int, bin as int, end as int));
            let ghost now = peaks@;
            peaks.push(p);
            assert(now + d.day_peaks(day as int, bin as int) =~= peaks@ + d.day_peaks(
                day as int,
                end as int,
            ));
            bin = end;
        }
        assert(peaks@ + d.day_peaks(day as int, bin as int) =~= peaks@);
        day += 1;
    }
    let order = window_order(&peaks);
    let mut schedule: ScalingSchedule = Vec::new();
    let ghost entries = order@.map_values(|p: Peak| entry(peaks@, p));
    let mut i: usize = 0;
    while i < order.len()
        invariant
            i <= order@.len(),
            entries == order@.map_values(|p: Peak| entry(peaks@, p)),
            schedule_view(schedule@) == entries.take(i as int),
        decreases order@.len() - i,
    {
        let p = order[i];
        let days = days_of(&peaks, &p);
        let ghost before = schedule@;
        schedule.push(
            ScheduleWindow {
                start_cron: weekly_window_cron(days.as_slice(), p.start_minute),
                duration_minutes: p.duration_minutes,
                min_replicas: p.min_replicas,
            },
        );
        assert(schedule_view(schedule@) =~= schedule_view(before).push(entry(peaks@, p)));
        assert(entries.take(i + 1) =~= entries.take(i as int).push(entries[i as int]));
        i += 1;
    }
    assert(entries.take(entries.len() as int) == entries);
    schedule
}

// ---------------------------------------------------------------------------------------------
// Laws

/// Whether `from..to` is a maximal run of bins of `day` that exceed the baseline.
pub open spec fn maximal_run(d: Demand, day: int, from: int, to: int) -> bool {
    &&& 0 <= from < to <= d.bins_per_day
    &&& forall|i: int| from <= i < to ==> #[trigger] d.exceeds(day, i)
    &&& from == 0 || !d.exceeds(day, from - 1)
    &&& to == d.bins_per_day || !d.exceeds(day, to)
}

/// Whether `p` is the window of a maximal run of `day`.
pub open spec fn run_peak(d: Demand, day: int, p: Peak) -> bool {
    exists|from: int, to: int| #[trigger] maximal_run(d, day, from, to) && p == d.peak(day, from, to)
}

/// Whether `p` is the window of a maximal run of one of the first `days` days.
pub open spec fn some_day_peak(d: Demand, days: int, p: Peak) -> bool {
    exists|day: int| 0 <= day < days && #[trigger] run_peak(d, day, p)
}

proof fn lemma_day_peaks(d: Demand, day: int, bin: int)
    requires
        0 <= bin <= d.bins_per_day,
        bin == 0 || bin == d.bins_per_day || !d.exceeds(day, bin - 1) || !d.exceeds(day, bin),
    ensures
        forall|from: int, to: int|
            bin <= from && #[trigger] maximal_run(d, day, from, to) ==> d.day_peaks(
                day,
                bin,
            ).contains(d.peak(day, from, to)),
        forall|i: int|
            0 <= i < d.day_peaks(day, bin).len() ==> run_peak(
                d,
                day,
                #[trigger] d.day_peaks(day, bin)[i],
            ),
    decreases d.bins_per_day - bin,
{
    let all = d.day_peaks(day, bin);
    if bin < d.bins_per_day {
        if d.exceeds(day, bin) {
            lemma_run_end(d, day, bin);
            lemma_run_end(d, day, bin + 1);
            let end = d.run_end(day, bin);
            lemma_day_peaks(d, day, end);
            let rest = d.day_peaks(day, end);
            assert(maximal_run(d, day, bin, end));
            assert(all == seq![d.peak(day, bin, end)] + rest);
            assert forall|from: int, to: int|
                bin <= from && #[trigger] maximal_run(d, day, from, to) implies all.contains(
                d.peak(day, from, to),
            ) by {
                assert(d.exceeds(day, from));
                if from == bin {
                    if to < end {
                        assert(d.exceeds(day, to));
                    } else if end < to {
                        assert(d.exceeds(day, end));
                    }
                    assert(all[0] == d.peak(day, from, to));
                } else {
                    if from <= end {
                        assert(d.exceeds(day, from - 1));
                    }
                    assert(rest.contains(d.peak(day, from, to)));
                    let k = choose|k: int| 0 <= k < rest.len() && rest[k] == d.peak(day, from, to);
                    assert(all[k + 1] == d.peak(day, from, to));
                }
            }
            assert forall|i: int| 0 <= i < all.len() implies run_peak(d, day, #[trigger] all[i]) by {
                if i == 0 {
                    assert(all[0] == d.peak(day, bin, end));
                } else {
                    assert(all[i] == rest[i - 1]);
                }
            }
        } else {
            lemma_day_peaks(d, day, bin + 1);
            assert(all == d.day_peaks(day, bin + 1));
            assert forall|from: int, to: int|
                bin <= from && #[trigger] maximal_run(d, day, from, to) implies all.contains(
                d.peak(day, from, to),
            ) by {
                assert(d.exceeds(day, from));
            }
        }
    }
}

/// Every maximal run of a day that exceeds the baseline has its window among the peaks, and every
/// peak is the window of such a run.
pub proof fn law_peaks_are_the_maximal_runs(d: Demand, days: int)
    requires
        0 <= days,
        0 <= d.bins_per_day,
    ensures
        forall|day: int, from: int, to: int|
            0 <= day < days && #[trigger] maximal_run(d, day, from, to) ==> d.peaks(days).contains(
                d.peak(day, from, to),
            ),
        forall|i: int|
            0 <= i < d.peaks(days).len() ==> some_day_peak(
                d,
                days,
                #[trigger] d.peaks(days)[i],
            ),
    decreases days,
{
    if days > 0 {
        law_peaks_are_the_maximal_runs(d, days - 1);
        lemma_day_peaks(d, days - 1, 0);
        let (a, b) = (d.peaks(days - 1), d.day_peaks(days - 1, 0));
        let all = d.peaks(days);
        assert(all == a + b);
        assert forall|day: int, from: int, to: int|
            0 <= day < days && #[trigger] maximal_run(d, day, from, to) implies all.contains(
            d.peak(day, from, to),
        ) by {
            let p = d.peak(day, from, to);
            if day < days - 1 {
                assert(a.contains(p));
                let k = choose|k: int| 0 <= k < a.len() && a[k] == p;
                assert(all[k] == p);
            } else {
                assert(b.contains(p));
                let k = choose|k: int| 0 <= k < b.len() && b[k] == p;
                assert(all[a.len() + k] == p);
            }
        }
        assert forall|i: int| 0 <= i < all.len() implies some_day_peak(
            d,
            days,
            #[trigger] all[i],
        ) by {
            if i < a.len() {
                assert(all[i] == a[i]);
                let day = choose|day: int|
                    0 <= day < days - 1 && #[trigger] run_peak(d, day, a[i]);
                assert(run_peak(d, day, all[i]));
            } else {
                assert(all[i] == b[i - a.len()]);
                assert(run_peak(d, days - 1, all[i]));
            }
        }
    }
}

proof fn lemma_highest(d: Demand, day: int, from: int, to: int)
    requires
        from < to,
        forall|i: int| from <= i < to ==> #[trigger] d.exceeds(day, i),
    ensures
        d.highest(day, from, to) > d.baseline,
        forall|i: int| from <= i < to ==> #[trigger] d.needed(day, i) <= d.highest(day, from, to),
    decreases to - from,
{
    if to <= from + 1 {
        assert(d.exceeds(day, from));
    } else {
        lemma_highest(d, day, from, to - 1);
        assert(d.exceeds(day, to - 1));
    }
}

/// A scheduled floor never exceeds the ceiling, and a window always raises the floor above the
/// baseline unless the ceiling itself stands in the way.
pub proof fn law_window_floor_is_bounded(d: Demand, schedule: Seq<WindowView>)
    requires
        0 <= d.bins_per_day,
        schedule_of(d.peaks(7), schedule),
    ensures
        forall|i: int|
            0 <= i < schedule.len() ==> (#[trigger] schedule[i]).min_replicas <= d.max_replicas
                && (schedule[i].min_replicas > d.baseline || schedule[i].min_replicas
                == d.max_replicas),
{
    let peaks = d.peaks(7);
    law_peaks_are_the_maximal_runs(d, 7);
    let order = choose|order: Seq<Peak>| #[trigger]
        lists_windows(order, peaks) && schedule == order.map_values(|p: Peak| entry(peaks, p));
    assert forall|i: int| 0 <= i < schedule.len() implies (#[trigger] schedule[i]).min_replicas
        <= d.max_replicas && (schedule[i].min_replicas > d.baseline || schedule[i].min_replicas
        == d.max_replicas) by {
        assert(same_window(order[i], order[i]));
        assert(has_window(order, order[i]));
        assert(has_window(peaks, order[i]));
        let k = choose|k: int| 0 <= k < peaks.len() && same_window(#[trigger] peaks[k], order[i]);
        let day = choose|day: int| 0 <= day < 7 && #[trigger] run_peak(d, day, peaks[k]);
        let (from, to) = choose|from: int, to: int| #[trigger]
            maximal_run(d, day, from, to) && peaks[k] == d.peak(day, from, to);
        lemma_highest(d, day, from, to);
    }
}

proof fn lemma_window_days_same(peaks: Seq<Peak>, a: Peak, b: Peak)
    requires
        same_window(a, b),
    ensures
        window_days(peaks, a) == window_days(peaks, b),
    decreases peaks.len(),
{
    if peaks.len() > 0 {
        lemma_window_days_same(peaks.drop_last(), a, b);
    }
}

proof fn lemma_order_unique(a: Seq<Peak>, b: Seq<Peak>)
    requires
        windows_ascend(a),
        windows_ascend(b),
        forall|p: Peak| #[trigger] has_window(a, p) <==> has_window(b, p),
    ensures
        a.len() == b.len(),
        forall|i: int| 0 <= i < a.len() ==> same_window(#[trigger] a[i], b[i]),
    decreases a.len(),
{
    if a.len() == 0 {
        if b.len() > 0 {
            assert(same_window(b[0], b[0]));
            assert(has_window(b, b[0]));
            assert(has_window(a, b[0]));
        }
    } else {
        let (m, n) = (a.len() - 1, b.len() - 1);
        assert(same_window(a[m], a[m]));
        assert(has_window(a, a[m]));
        let k = choose|k: int| 0 <= k < b.len() && same_window(#[trigger] b[k], a[m]);
        assert(same_window(b[n], b[n]));
        assert(has_window(b, b[n]));
        assert(has_window(a, b[n]));
        let l = choose|l: int| 0 <= l < a.len() && same_window(#[trigger] a[l], b[n]);
        assert(k == n || window_before(b[k], b[n]));
        assert(l == m || window_before(a[l], a[m]));
        assert(same_window(a[m], b[n]));
        let (x, y) = (a.drop_last(), b.drop_last());
        assert forall|p: Peak| #[trigger] has_window(x, p) <==> has_window(y, p) by {
            if has_window(x, p) {
                let i = choose|i: int| 0 <= i < x.len() && same_window(#[trigger] x[i], p);
                assert(window_before(a[i], a[m]));
                assert(same_window(a[i], p));
                assert(has_window(a, p));
                let j = choose|j: int| 0 <= j < b.len() && same_window(#[trigger] b[j], p);
                assert(j != n);
                assert(same_window(y[j], p));
            }
            if has_window(y, p) {
                let i = choose|i: int| 0 <= i < y.len() && same_window(#[trigger] y[i], p);
                assert(window_before(b[i], b[n]));
                assert(same_window(b[i], p));
                assert(has_window(b, p));
                assert(has_window(a, p));
                let j = choose|j: int| 0 <= j < a.len() && same_window(#[trigger] a[j], p);
                assert(j != m);
                assert(same_window(x[j], p));
            }
        }
        lemma_order_unique(x, y);
        assert forall|i: int| 0 <= i < a.len() implies same_window(#[trigger] a[i], b[i]) by {
            if i < m {
                assert(same_window(x[i], y[i]));
            }
        }
    }
}

proof fn lemma_run_start(d: Demand, day: int, bin: int) -> (from: int)
    requires
        0 <= bin,
        d.exceeds(day, bin),
    ensures
        0 <= from <= bin,
        forall|i: int| from <= i <= bin ==> #[trigger] d.exceeds(day, i),
        from == 0 || !d.exceeds(day, from - 1),
    decreases bin,
{
    if bin > 0 && d.exceeds(day, bin - 1) {
        lemma_run_start(d, day, bin - 1)
    } else {
        bin
    }
}

spec fn day_has_window(peaks: Seq<Peak>, p: Peak, day: u32) -> bool {
    exists|k: int| 0 <= k < peaks.len() && same_window(#[trigger] peaks[k], p) && peaks[k].day == day
}

proof fn lemma_window_days(peaks: Seq<Peak>, p: Peak)
    ensures
        forall|k: int|
            0 <= k < peaks.len() && same_window(#[trigger] peaks[k], p) ==> window_days(
                peaks,
                p,
            ).contains(peaks[k].day),
        forall|i: int|
            0 <= i < window_days(peaks, p).len() ==> day_has_window(
                peaks,
                p,
                #[trigger] window_days(peaks, p)[i],
            ),
    decreases peaks.len(),
{
    if peaks.len() > 0 {
        let rest = peaks.drop_last();
        lemma_window_days(rest, p);
        let (short, long) = (window_days(rest, p), window_days(peaks, p));
        assert forall|k: int|
            0 <= k < peaks.len() && same_window(#[trigger] peaks[k], p) implies long.contains(
            peaks[k].day,
        ) by {
            if k < rest.len() {
                assert(rest[k] == peaks[k]);
                let i = choose|i: int| 0 <= i < short.len() && short[i] == peaks[k].day;
                assert(long[i] == peaks[k].day);
            } else {
                assert(long[short.len() as int] == peaks[k].day);
            }
        }
        assert forall|i: int| 0 <= i < long.len() implies day_has_window(
            peaks,
            p,
            #[trigger] long[i],
        ) by {
            if i < short.len() {
                assert(day_has_window(rest, p, short[i]));
                let k = choose|k: int|
                    0 <= k < rest.len() && same_window(#[trigger] rest[k], p) && rest[k].day
                        == short[i];
                assert(same_window(peaks[k], p));
            } else {
                assert(same_window(peaks[peaks.len() - 1], p));
            }
        }
    }
}

/// The window of a run lies within its day and lasts from before its first bin to the end of its
/// last.
proof fn lemma_peak_spans_its_run(d: Demand, day: int, from: int, to: int)
    requires
        0 < d.bin_minutes <= i32::MAX,
        d.bins_per_day == day_bins(d.bin_minutes),
        0 <= from < to <= d.bins_per_day,
    ensures
        d.peak(day, from, to).start_minute <= from * d.bin_minutes < 1440,
        d.peak(day, from, to).start_minute == max(0, from * d.bin_minutes - d.lead()),
        d.peak(day, from, to).start_minute + d.peak(day, from, to).duration_minutes == to
            * d.bin_minutes,
{
    law_grid_covers_the_day(d.bin_minutes);
    let (n, w) = (d.bins_per_day, d.bin_minutes as int);
    assert(n * w <= i32::MAX) by (nonlinear_arith)
        requires
            n == (1440 + w - 1) / w,
            0 < w <= i32::MAX,
            n >= 1,
    {
        assert(n * w <= 1440 + w - 1);
        if w >= 1440 {
            assert(n == 1);
        }
    }
    assert((n - 1) * w < 1440) by (nonlinear_arith)
        requires
            n == (1440 + w - 1) / w,
            0 < w,
    ;
    assert(0 <= from * w <= (n - 1) * w) by (nonlinear_arith)
        requires
            0 <= from <= n - 1,
            w > 0,
    ;
    assert(to * w <= n * w) by (nonlinear_arith)
        requires
            to <= n,
            w > 0,
    ;
    assert((to - from) * w == to * w - from * w) by (nonlinear_arith);
    assert(to * w >= from * w) by (nonlinear_arith)
        requires
            from < to,
            w > 0,
    ;
}

/// At every instant of a bin that needs more than the baseline, a window of the schedule is active
/// that asks for as much, up to the ceiling.
pub proof fn law_exceeding_bin_has_a_window(d: Demand, schedule: Seq<WindowView>, now: Timestamp)
    requires
        0 < d.bin_minutes <= i32::MAX,
        d.bins_per_day == day_bins(d.bin_minutes),
        schedule_of(d.peaks(7), schedule),
        now.valid(),
        d.bins[weekly_index(now, d.bin_minutes, d.bins_per_day)] > d.baseline,
    ensures
        exists|i: int|
            0 <= i < schedule.len() && cron_active(
                (#[trigger] schedule[i]).start_cron,
                schedule[i].duration_minutes,
                now,
            ) && (schedule[i].min_replicas >= d.bins[weekly_index(
                now,
                d.bin_minutes,
                d.bins_per_day,
            )] || schedule[i].min_replicas == d.max_replicas),
{
    law_grid_covers_the_day(d.bin_minutes);
    let (n, w) = (d.bins_per_day, d.bin_minutes as int);
    let (day, m) = (now.weekday(), now.minute_of_day());
    let bin = m / w;
    assert(0 <= bin < n && bin * w <= m < (bin + 1) * w) by (nonlinear_arith)
        requires
            bin == m / w,
            0 <= m < 1440,
            w > 0,
            n * w >= 1440,
    ;
    assert(d.exceeds(day, bin));
    let from = lemma_run_start(d, day, bin);
    lemma_run_end(d, day, bin);
    lemma_run_end(d, day, bin + 1);
    let to = d.run_end(day, bin);
    assert(maximal_run(d, day, from, to));
    let peaks = d.peaks(7);
    law_peaks_are_the_maximal_runs(d, 7);
    let p = d.peak(day, from, to);
    assert(peaks.contains(p));
    let at = choose|k: int| 0 <= k < peaks.len() && peaks[k] == p;
    assert(same_window(peaks[at], p));
    assert(has_window(peaks, p));
    let order = choose|order: Seq<Peak>| #[trigger]
        lists_windows(order, peaks) && schedule == order.map_values(|p: Peak| entry(peaks, p));
    assert(has_window(order, p));
    let i = choose|i: int| 0 <= i < order.len() && same_window(#[trigger] order[i], p);
    lemma_window_days_same(peaks, order[i], p);
    lemma_window_days(peaks, p);
    let days = window_days(peaks, p);
    assert(days.contains(day as u32));
    let j = choose|j: int| 0 <= j < days.len() && days[j] == day as u32;
    assert(days[j] % 7 == day);
    lemma_peak_spans_its_run(d, day, from, to);
    lemma_highest(d, day, from, to);
    law_written_window_active(days, p.start_minute, p.duration_minutes, now);
    assert(from * w <= m) by (nonlinear_arith)
        requires
            from <= bin,
            bin * w <= m,
            w > 0,
    ;
    assert(m < to * w) by (nonlinear_arith)
        requires
            bin + 1 <= to,
            m < (bin + 1) * w,
            w > 0,
    ;
    assert(names_day(days, weekday_of_day(now.day())));
    assert(d.needed(day, bin) <= d.highest(day, from, to));
    assert(schedule[i] == entry(peaks, order[i]));
}

proof fn lemma_highest_is_reached(d: Demand, day: int, from: int, to: int) -> (k: int)
    requires
        from < to,
    ensures
        from <= k < to,
        d.needed(day, k) == d.highest(day, from, to),
    decreases to - from,
{
    if to <= from + 1 {
        from
    } else if d.needed(day, to - 1) > d.highest(day, from, to - 1) {
        to - 1
    } else {
        lemma_highest_is_reached(d, day, from, to - 1)
    }
}

/// A window is open only around a stretch of bins that need more than the baseline: from the lead
/// before its first bin, but not from before midnight, to the end of its last. It asks for the
/// highest need of that stretch, up to the ceiling. The result is the day on which the window
/// opened (counted from 1970-01-01), the stretch `from..to`, and the bin with the highest need.
pub proof fn law_open_window_surrounds_a_stretch(
    d: Demand,
    schedule: Seq<WindowView>,
    i: int,
    now: Timestamp,
) -> (w: (int, int, int, int))
    requires
        0 < d.bin_minutes <= i32::MAX,
        d.bins_per_day == day_bins(d.bin_minutes),
        schedule_of(d.peaks(7), schedule),
        0 <= i < schedule.len(),
        cron_active(schedule[i].start_cron, schedule[i].duration_minutes, now),
    ensures
        ({
            let (day, from, to, top) = w;
            let row = weekday_of_day(day) * d.bins_per_day;
            let lead = max(0, min(d.lead_minutes as int, i32::MAX as int));
            &&& 0 <= from <= top < to <= d.bins_per_day
            &&& forall|k: int| from <= k < to ==> #[trigger] d.bins[row + k] > d.baseline
            &&& from == 0 || d.bins[row + from - 1] <= d.baseline
            &&& to == d.bins_per_day || d.bins[row + to] <= d.baseline
            &&& (day * 1440 + max(0, from * d.bin_minutes - lead)) * 60_000_000_000
                <= now.instant() < (day * 1440 + to * d.bin_minutes) * 60_000_000_000
            &&& schedule[i].min_replicas == min(d.bins[row + top] as int, d.max_replicas as int)
            &&& forall|k: int| from <= k < to ==> #[trigger] d.bins[row + k] <= d.bins[row + top]
        }),
{
    let peaks = d.peaks(7);
    law_peaks_are_the_maximal_runs(d, 7);
    let order = choose|order: Seq<Peak>| #[trigger]
        lists_windows(order, peaks) && schedule == order.map_values(|p: Peak| entry(peaks, p));
    let p = order[i];
    assert(same_window(order[i], p));
    assert(has_window(order, p));
    assert(has_window(peaks, p));
    let first = choose|k: int| 0 <= k < peaks.len() && same_window(#[trigger] peaks[k], p);
    assert(some_day_peak(d, 7, peaks[first]));
    let e = choose|e: int| 0 <= e < 7 && #[trigger] run_peak(d, e, peaks[first]);
    let (a, b) = choose|a: int, b: int| #[trigger]
        maximal_run(d, e, a, b) && peaks[first] == d.peak(e, a, b);
    lemma_peak_spans_its_run(d, e, a, b);
    lemma_window_days(peaks, p);
    let days = window_days(peaks, p);
    assert(days.contains(peaks[first].day));
    assert(schedule[i] == entry(peaks, p));
    law_written_window_active(days, p.start_minute, p.duration_minutes, now);
    let day = choose|day: int|
        #![trigger weekday_of_day(day)]
        names_day(days, weekday_of_day(day)) && (day * 1440 + p.start_minute) * 60_000_000_000
            <= now.instant() < (day * 1440 + p.start_minute + p.duration_minutes) * 60_000_000_000;
    let j = choose|j: int| 0 <= j < days.len() && (#[trigger] days[j]) % 7 == weekday_of_day(day);
    assert(day_has_window(peaks, p, days[j]));
    let k = choose|k: int|
        0 <= k < peaks.len() && same_window(#[trigger] peaks[k], p) && peaks[k].day == days[j];
    assert(some_day_peak(d, 7, peaks[k]));
    let weekday = choose|e: int| 0 <= e < 7 && #[trigger] run_peak(d, e, peaks[k]);
    let (from, to) = choose|a: int, b: int| #[trigger]
        maximal_run(d, weekday, a, b) && peaks[k] == d.peak(weekday, a, b);
    assert(weekday == weekday_of_day(day));
    lemma_peak_spans_its_run(d, weekday, from, to);
    lemma_highest(d, weekday, from, to);
    let top = lemma_highest_is_reached(d, weekday, from, to);
    let row = weekday * d.bins_per_day;
    assert forall|k: int| from <= k < to implies #[trigger] d.bins[row + k] > d.baseline
        && d.bins[row + k] <= d.bins[row + top] by {
        assert(d.exceeds(weekday, k));
        assert(d.needed(weekday, k) <= d.highest(weekday, from, to));
    }
    assert(from == 0 || d.bins[row + from - 1] <= d.baseline) by {
        assert(from == 0 || !d.exceeds(weekday, from - 1));
        assert(row + (from - 1) == row + from - 1);
    }
    (day, from, to, top)
}

/// Every stretch of bins that need more than the baseline has its window: it is open from the lead
/// before the first bin, but not from before midnight, to the end of the last, and asks for at
/// least what each of the bins needs, up to the ceiling. The result is the window's place in the
/// schedule.
pub proof fn law_stretch_has_its_window(
    d: Demand,
    schedule: Seq<WindowView>,
    day: int,
    from: int,
    to: int,
    now: Timestamp,
) -> (i: int)
    requires
        0 < d.bin_minutes <= i32::MAX,
        d.bins_per_day == day_bins(d.bin_minutes),
        schedule_of(d.peaks(7), schedule),
        0 <= from < to <= d.bins_per_day,
        forall|k: int|
            from <= k < to ==> #[trigger] d.bins[weekday_of_day(day) * d.bins_per_day + k]
                > d.baseline,
        from == 0 || d.bins[weekday_of_day(day) * d.bins_per_day + from - 1] <= d.baseline,
        to == d.bins_per_day || d.bins[weekday_of_day(day) * d.bins_per_day + to] <= d.baseline,
        (day * 1440 + max(
            0,
            from * d.bin_minutes - max(0, min(d.lead_minutes as int, i32::MAX as int)),
        )) * 60_000_000_000 <= now.instant() < (day * 1440 + to * d.bin_minutes) * 60_000_000_000,
    ensures
        0 <= i < schedule.len(),
        cron_active(schedule[i].start_cron, schedule[i].duration_minutes, now),
        forall|k: int|
            from <= k < to ==> schedule[i].min_replicas >= min(
                #[trigger] d.bins[weekday_of_day(day) * d.bins_per_day + k] as int,
                d.max_replicas as int,
            ),
{
    let weekday = weekday_of_day(day);
    let row = weekday * d.bins_per_day;
    assert forall|k: int| from <= k < to implies #[trigger] d.exceeds(weekday, k) by {
        assert(d.bins[row + k] > d.baseline);
    }
    assert(row + (from - 1) == row + from - 1);
    assert(maximal_run(d, weekday, from, to));
    let peaks = d.peaks(7);
    law_peaks_are_the_maximal_runs(d, 7);
    let p = d.peak(weekday, from, to);
    assert(peaks.contains(p));
    let at = choose|k: int| 0 <= k < peaks.len() && peaks[k] == p;
    assert(same_window(peaks[at], p));
    assert(has_window(peaks, p));
    let order = choose|order: Seq<Peak>| #[trigger]
        lists_windows(order, peaks) && schedule == order.map_values(|p: Peak| entry(peaks, p));
    assert(has_window(order, p));
    let i = choose|i: int| 0 <= i < order.len() && same_window(#[trigger] order[i], p);
    lemma_window_days_same(peaks, order[i], p);
    lemma_window_days(peaks, p);
    let days = window_days(peaks, p);
    assert(days.contains(weekday as u32));
    let j = choose|j: int| 0 <= j < days.len() && days[j] == weekday as u32;
    assert(days[j] % 7 == weekday);
    lemma_peak_spans_its_run(d, weekday, from, to);
    lemma_highest(d, weekday, from, to);
    law_written_window_active(days, p.start_minute, p.duration_minutes, now);
    assert(names_day(days, weekday_of_day(day)));
    assert(schedule[i] == entry(peaks, order[i]));
    assert forall|k: int| from <= k < to implies schedule[i].min_replicas >= min(
        #[trigger] d.bins[row + k] as int,
        d.max_replicas as int,
    ) by {
        assert(d.needed(weekday, k) <= d.highest(weekday, from, to));
    }
    i
}

/// No window is listed twice: two entries of a schedule differ in their opening time, their length
/// or their floor.
pub proof fn law_windows_are_merged(d: Demand, schedule: Seq<WindowView>, i: int, j: int)
    requires
        0 < d.bin_minutes <= i32::MAX,
        d.bins_per_day == day_bins(d.bin_minutes),
        schedule_of(d.peaks(7), schedule),
        0 <= i < j < schedule.len(),
    ensures
        cron_fields(schedule[i].start_cron) is Some && cron_fields(schedule[j].start_cron) is Some,
        ({
            let (minute, hour, _) = cron_fields(schedule[i].start_cron)->0;
            let (other_minute, other_hour, _) = cron_fields(schedule[j].start_cron)->0;
            minute != other_minute || hour != other_hour || schedule[i].duration_minutes
                != schedule[j].duration_minutes || schedule[i].min_replicas
                != schedule[j].min_replicas
        }),
{
    let peaks = d.peaks(7);
    law_peaks_are_the_maximal_runs(d, 7);
    let order = choose|order: Seq<Peak>| #[trigger]
        lists_windows(order, peaks) && schedule == order.map_values(|p: Peak| entry(peaks, p));
    lemma_order_entry(d, order, i);
    lemma_order_entry(d, order, j);
    assert(window_before(order[i], order[j]));
    assert(schedule[i] == entry(peaks, order[i]));
    assert(schedule[j] == entry(peaks, order[j]));
    law_cron_reads_back(window_days(peaks, order[i]), order[i].start_minute);
    law_cron_reads_back(window_days(peaks, order[j]), order[j].start_minute);
}

proof fn lemma_order_entry(d: Demand, order: Seq<Peak>, i: int)
    requires
        0 < d.bin_minutes <= i32::MAX,
        d.bins_per_day == day_bins(d.bin_minutes),
        lists_windows(order, d.peaks(7)),
        0 <= i < order.len(),
    ensures
        order[i].start_minute < 1440,
        window_days(d.peaks(7), order[i]).len() > 0,
{
    let peaks = d.peaks(7);
    law_peaks_are_the_maximal_runs(d, 7);
    assert(same_window(order[i], order[i]));
    assert(has_window(order, order[i]));
    assert(has_window(peaks, order[i]));
    let k = choose|k: int| 0 <= k < peaks.len() && same_window(#[trigger] peaks[k], order[i]);
    assert(some_day_peak(d, 7, peaks[k]));
    let e = choose|e: int| 0 <= e < 7 && #[trigger] run_peak(d, e, peaks[k]);
    let (a, b) = choose|a: int, b: int| #[trigger]
        maximal_run(d, e, a, b) && peaks[k] == d.peak(e, a, b);
    lemma_peak_spans_its_run(d, e, a, b);
    lemma_window_days(peaks, order[i]);
    assert(window_days(peaks, order[i]).contains(peaks[k].day));
}

/// A bin that needs more than the baseline gives rise to a peak.
pub proof fn lemma_bin_has_a_peak(d: Demand, day: int, bin: int)
    requires
        0 <= day < 7,
        0 <= bin < d.bins_per_day,
        d.bins[day * d.bins_per_day + bin] > d.baseline,
    ensures
        d.peaks(7).len() > 0,
{
    assert(d.exceeds(day, bin));
    let from = lemma_run_start(d, day, bin);
    lemma_run_end(d, day, bin);
    lemma_run_end(d, day, bin + 1);
    let to = d.run_end(day, bin);
    assert(maximal_run(d, day, from, to));
    law_peaks_are_the_maximal_runs(d, 7);
    assert(d.peaks(7).contains(d.peak(day, from, to)));
}

/// Where there is a peak, some bin needs more than the baseline.
pub proof fn lemma_peak_has_a_bin(d: Demand) -> (r: (int, int))
    requires
        0 <= d.bins_per_day,
        d.peaks(7).len() > 0,
    ensures
        0 <= r.0 < 7,
        0 <= r.1 < d.bins_per_day,
        d.bins[r.0 * d.bins_per_day + r.1] > d.baseline,
{
    law_peaks_are_the_maximal_runs(d, 7);
    let p = d.peaks(7)[0];
    assert(some_day_peak(d, 7, p));
    let day = choose|e: int| 0 <= e < 7 && #[trigger] run_peak(d, e, p);
    let (from, to) = choose|a: int, b: int| #[trigger]
        maximal_run(d, day, a, b) && p == d.peak(day, a, b);
    assert(d.exceeds(day, from));
    (day, from)
}

/// A forecast has exactly one schedule.
pub proof fn law_schedule_is_determined(
    peaks: Seq<Peak>,
    one: Seq<WindowView>,
    other: Seq<WindowView>,
)
    requires
        schedule_of(peaks, one),
        schedule_of(peaks, other),
    ensures
        one == other,
{
    let a = choose|order: Seq<Peak>| #[trigger]
        lists_windows(order, peaks) && one == order.map_values(|p: Peak| entry(peaks, p));
    let b = choose|order: Seq<Peak>| #[trigger]
        lists_windows(order, peaks) && other == order.map_values(|p: Peak| entry(peaks, p));
    lemma_order_unique(a, b);
    assert forall|i: int| 0 <= i < one.len() implies one[i] == other[i] by {
        assert(same_window(a[i], b[i]));
        lemma_window_days_same(peaks, a[i], b[i]);
    }
    assert(one =~= other);
}

} // verus!
