//! Time-of-day and weekday profiles of hourly token usage.
use vstd::prelude::*;

use crate::tokens::{sat_add, TokenBreakdown};

verus! {

/// The token usage of one hour: its hour of day, its weekday (0 = Monday) and its tokens.
#[derive(Debug, Clone, Copy)]
pub struct HourlyTokens {
    pub hour: u32,
    pub weekday_from_monday: u32,
    pub tokens: TokenBreakdown,
}

/// Time-of-day period bucket for the profile view.
#[derive(Debug, Clone)]
pub struct PeriodBucket {
    pub label: &'static str,
    pub hour_range: &'static str,
    pub total_tokens: u64,
}

/// Weekday bucket for the profile view.
#[derive(Debug, Clone)]
pub struct WeekdayBucket {
    pub day: &'static str,
    pub total_tokens: u64,
}

/// Hour `h` belongs to period `p`: 0 morning (5-11), 1 daytime (12-16), 2 evening (17-21),
/// 3 night (22, 23 and 0-4).
pub open spec fn in_period(p: int, h: int) -> bool {
    if p == 0 {
        5 <= h <= 11
    } else if p == 1 {
        12 <= h <= 16
    } else if p == 2 {
        17 <= h <= 21
    } else if p == 3 {
        h == 22 || h == 23 || (0 <= h <= 4)
    } else {
        false
    }
}

/// The saturating sum of the token totals of the entries whose hour lies in period `p`.
pub open spec fn period_total(entries: Seq<HourlyTokens>, p: int) -> int
    decreases entries.len(),
{
    if entries.len() == 0 {
        0
    } else {
        let prev = period_total(entries.drop_last(), p);
        if in_period(p, entries.last().hour as int) {
            sat_add(prev, entries.last().tokens.spec_total())
        } else {
            prev
        }
    }
}

/// The saturating sum of the token totals of the entries on weekday `w`.
pub open spec fn weekday_total(entries: Seq<HourlyTokens>, w: int) -> int
    decreases entries.len(),
{
    if entries.len() == 0 {
        0
    } else {
        let prev = weekday_total(entries.drop_last(), w);
        if entries.last().weekday_from_monday as int == w {
            sat_add(prev, entries.last().tokens.spec_total())
        } else {
            prev
        }
    }
}

/// Every hour of the day lies in exactly one of the four periods.
pub proof fn lemma_hours_partitioned(h: int)
    requires
        0 <= h < 24,
    ensures
        exists|p: int| 0 <= p < 4 && in_period(p, h),
        forall|p: int, q: int| 0 <= p < 4 && 0 <= q < 4 && in_period(p, h) && in_period(q, h) ==> p
            == q,
{
    if 5 <= h <= 11 {
        assert(in_period(0, h));
    } else if 12 <= h <= 16 {
        assert(in_period(1, h));
    } else if 17 <= h <= 21 {
        assert(in_period(2, h));
    } else {
        assert(in_period(3, h));
    }
}

fn in_period_exec(p: usize, h: u32) -> (r: bool)
    requires
        p < 4,
    ensures
        r == in_period(p as int, h as int),
{
    if p == 0 {
        5 <= h && h <= 11
    } else if p == 1 {
        12 <= h && h <= 16
    } else if p == 2 {
        17 <= h && h <= 21
    } else {
        h == 22 || h == 23 || h <= 4
    }
}

fn period_sum(hourly: &[HourlyTokens], p: usize) -> (r: u64)
    requires
        p < 4,
    ensures
        r == period_total(hourly@, p as int),
{
    let mut total: u64 = 0;
    let n = hourly.len();
    let mut i: usize = 0;
    while i < n
        invariant
            p < 4,
            n == hourly@.len(),
            i <= n,
            total == period_total(hourly@.take(i as int), p as int),
        decreases n - i,
    {
        assert(hourly@.take(i + 1).drop_last() =~= hourly@.take(i as int));
        if in_period_exec(p, hourly[i].hour) {
            total = total.saturating_add(hourly[i].tokens.total());
        }
        i = i + 1;
    }
    assert(hourly@.take(n as int) =~= hourly@);
    total
}

/// Aggregates hourly usage into the four time-of-day periods (morning, daytime, evening,
/// night), each with the saturating sum of the token totals of its hours.
pub fn aggregate_by_period(hourly: &[HourlyTokens]) -> (r: Vec<PeriodBucket>)
    ensures
        r@.len() == 4,
        r@[0].label@ == "Morning"@ && r@[0].hour_range@ == "05:00-11:59"@,
        r@[1].label@ == "Daytime"@ && r@[1].hour_range@ == "12:00-16:59"@,
        r@[2].label@ == "Evening"@ && r@[2].hour_range@ == "17:00-21:59"@,
        r@[3].label@ == "Night"@ && r@[3].hour_range@ == "22:00-04:59"@,
        forall|p: int| 0 <= p < 4 ==> (#[trigger] r@[p]).total_tokens == period_total(hourly@, p),
{
    let mut r: Vec<PeriodBucket> = Vec::new();
    r.push(PeriodBucket { label: "Morning", hour_range: "05:00-11:59", total_tokens: period_sum(hourly, 0) });
    r.push(PeriodBucket { label: "Daytime", hour_range: "12:00-16:59", total_tokens: period_sum(hourly, 1) });
    r.push(PeriodBucket { label: "Evening", hour_range: "17:00-21:59", total_tokens: period_sum(hourly, 2) });
    r.push(PeriodBucket { label: "Night", hour_range: "22:00-04:59", total_tokens: period_sum(hourly, 3) });
    r
}

/// The name of weekday `w` (0 = Monday).
pub open spec fn weekday_name(w: int) -> Seq<char> {
    if w == 0 {
        "Monday"@
    } else if w == 1 {
        "Tuesday"@
    } else if w == 2 {
        "Wednesday"@
    } else if w == 3 {
        "Thursday"@
    } else if w == 4 {
        "Friday"@
    } else if w == 5 {
        "Saturday"@
    } else {
        "Sunday"@
    }
}

/// Aggregates hourly usage by weekday, Monday first, with saturating sums of token totals.
pub fn aggregate_by_weekday(hourly: &[HourlyTokens]) -> (r: Vec<WeekdayBucket>)
    requires
        forall|i: int| 0 <= i < hourly@.len() ==> (#[trigger] hourly@[i]).weekday_from_monday < 7,
    ensures
        r@.len() == 7,
        forall|w: int| 0 <= w < 7 ==> (#[trigger] r@[w]).day@ == weekday_name(w),
        forall|w: int| 0 <= w < 7 ==> (#[trigger] r@[w]).total_tokens == weekday_total(hourly@, w),
{
    let mut buckets: Vec<u64> = vec![0, 0, 0, 0, 0, 0, 0];
    let n = hourly.len();
    let mut i: usize = 0;
    while i < n
        invariant
            n == hourly@.len(),
            i <= n,
            forall|j: int| 0 <= j < n ==> (#[trigger] hourly@[j]).weekday_from_monday < 7,
            buckets@.len() == 7,
            forall|w: int| 0 <= w < 7 ==> (#[trigger] buckets@[w]) == weekday_total(hourly@.take(i as int), w),
        decreases n - i,
    {
        assert(hourly@.take(i + 1).drop_last() =~= hourly@.take(i as int));
        let w = hourly[i].weekday_from_monday as usize;
        let updated = buckets[w].saturating_add(hourly[i].tokens.total());
        buckets.set(w, updated);
        i = i + 1;
    }
    assert(hourly@.take(n as int) =~= hourly@);
    let names: [&'static str; 7] = ["Monday", "Tuesday", "Wednesday", "Thursday", "Friday", "Saturday", "Sunday"];
    let mut r: Vec<WeekdayBucket> = Vec::new();
    let mut w: usize = 0;
    while w < 7
        invariant
            w <= 7,
            r@.len() == w,
            buckets@.len() == 7,
            names@ == seq!["Monday", "Tuesday", "Wednesday", "Thursday", "Friday", "Saturday", "Sunday"],
            forall|x: int| 0 <= x < w ==> (#[trigger] r@[x]).day@ == weekday_name(x),
            forall|x: int| 0 <= x < w ==> (#[trigger] r@[x]).total_tokens == buckets@[x],
        decreases 7 - w,
    {
        r.push(WeekdayBucket { day: names[w], total_tokens: buckets[w] });
        w = w + 1;
    }
    r
}

/// The saturating sum of the token totals of the entries at hour-of-day `h`.
pub open spec fn hour_total(entries: Seq<HourlyTokens>, h: int) -> int
    decreases entries.len(),
{
    if entries.len() == 0 {
        0
    } else {
        let prev = hour_total(entries.drop_last(), h);
        if entries.last().hour as int == h {
            sat_add(prev, entries.last().tokens.spec_total())
        } else {
            prev
        }
    }
}

/// Some entry is at hour-of-day `h`.
pub open spec fn hour_present(entries: Seq<HourlyTokens>, h: int) -> bool {
    exists|i: int| 0 <= i < entries.len() && (#[trigger] entries[i]).hour as int == h
}

fn hour_sum(hourly: &[HourlyTokens], h: u32) -> (r: (u64, bool))
    ensures
        r.0 == hour_total(hourly@, h as int),
        r.1 == hour_present(hourly@, h as int),
{
    let mut total: u64 = 0;
    let mut present = false;
    let n = hourly.len();
    let mut i: usize = 0;
    while i < n
        invariant
            n == hourly@.len(),
            i <= n,
            total == hour_total(hourly@.take(i as int), h as int),
            present == hour_present(hourly@.take(i as int), h as int),
        decreases n - i,
    {
        assert(hourly@.take(i + 1).drop_last() =~= hourly@.take(i as int));
        proof {
            let pre = hourly@.take(i as int);
            let post = hourly@.take(i + 1);
            if hour_present(post, h as int) {
                let w = choose|w: int| 0 <= w < post.len() && (#[trigger] post[w]).hour as int == h as int;
                if w < i {
                    assert(pre[w] == post[w]);
                }
            }
            if hour_present(pre, h as int) {
                let w = choose|w: int| 0 <= w < pre.len() && (#[trigger] pre[w]).hour as int == h as int;
                assert(post[w] == pre[w]);
            }
            if hourly@[i as int].hour == h {
                assert(post[i as int] == hourly@[i as int]);
            }
        }
        if hourly[i].hour == h {
            total = total.saturating_add(hourly[i].tokens.total());
            present = true;
        }
        i = i + 1;
    }
    assert(hourly@.take(n as int) =~= hourly@);
    (total, present)
}

/// The busiest hour of the day: an hour present in the entries whose token total is the
/// largest (the earliest such hour), with that total; none when there are no entries.
pub fn find_peak_hour(hourly: &[HourlyTokens]) -> (r: Option<(u32, u64)>)
    requires
        forall|i: int| 0 <= i < hourly@.len() ==> (#[trigger] hourly@[i]).hour < 24,
    ensures
        r is None <==> hourly@.len() == 0,
        r matches Some(p) ==> {
            &&& hour_present(hourly@, p.0 as int)
            &&& p.1 == hour_total(hourly@, p.0 as int)
            &&& forall|h: int| 0 <= h < 24 && hour_present(hourly@, h) ==> #[trigger] hour_total(hourly@, h) <= p.1
        },
{
    let mut best: Option<(u32, u64)> = None;
    let mut h: u32 = 0;
    while h < 24
        invariant
            h <= 24,
            forall|i: int| 0 <= i < hourly@.len() ==> (#[trigger] hourly@[i]).hour < 24,
            best is None <==> forall|x: int| 0 <= x < h ==> !hour_present(hourly@, x),
            best matches Some(p) ==> {
                &&& p.0 < h
                &&& hour_present(hourly@, p.0 as int)
                &&& p.1 == hour_total(hourly@, p.0 as int)
                &&& forall|x: int| 0 <= x < h && hour_present(hourly@, x) ==> #[trigger] hour_total(hourly@, x) <= p.1
            },
        decreases 24 - h,
    {
        let (t, present) = hour_sum(hourly, h);
        if present {
            match best {
                None => {
                    best = Some((h, t));
                },
                Some((_, bt)) => {
                    if t > bt {
                        best = Some((h, t));
                    }
                },
            }
        }
        h = h + 1;
    }
    proof {
        if hourly@.len() > 0 {
            let x = hourly@[0].hour as int;
            assert(hour_present(hourly@, x));
        }
        if best is None && hourly@.len() > 0 {
            assert(hour_present(hourly@, hourly@[0].hour as int));
        }
        if best is Some {
            let p = best->0;
            let w = choose|w: int| 0 <= w < hourly@.len() && (#[trigger] hourly@[w]).hour as int == p.0 as int;
            assert(hourly@.len() > 0);
        }
    }
    best
}

} // verus!
